//! The fixed list of drawing prompts. Prompts are stored lowercase, exactly
//! as they are compared against guesses.

use vstd::prelude::*;

verus! {

/// Every prompt the game can hand out, in a fixed order.
pub open spec fn word_list() -> Seq<Seq<char>> {
    seq![
        "apple"@,
        "apricot"@,
        "artichoke"@,
        "avocado"@,
        "banana"@,
        "beet"@,
        "bell pepper"@,
        "blackberry"@,
        "blueberry"@,
        "broccoli"@,
        "brussels sprouts"@,
        "cabbage"@,
        "carrot"@,
        "cauliflower"@,
        "cherry"@,
        "corn"@,
        "cucumber"@,
        "eggplant"@,
        "fennel"@,
        "garlic"@,
        "grapefruit"@,
        "grapes"@,
        "honeydew melon"@,
        "kale"@,
        "kiwi"@,
        "leek"@,
        "lemon"@,
        "lettuce"@,
        "mango"@,
        "mandarin"@,
        "nectarine"@,
        "onion"@,
        "orange"@,
        "papaya"@,
        "parsnip"@,
        "peach"@,
        "pear"@,
        "peas"@,
        "pineapple"@,
        "plum"@,
        "pomegranate"@,
        "potato"@,
        "pumpkin"@,
        "raisins"@,
        "radish"@,
        "raspberry"@,
        "rhubarb"@,
        "spinach"@,
        "squash"@,
        "strawberry"@,
        "sweet potato"@,
        "tomato"@,
        "turnip"@,
        "watermelon"@,
    ]
}

/// How many prompts the list holds. The rotation logic needs at least two.
pub open spec fn word_count() -> nat {
    word_list().len()
}

/// Whether `s` is one of the configured prompts.
pub open spec fn is_prompt_word(s: Seq<char>) -> bool {
    exists|i: int| 0 <= i < word_list().len() && word_list()[i] == s
}

/// The prompt at position `i` of the list.
pub fn word_at(i: usize) -> (w: String)
    requires
        i < word_count(),
    ensures
        w@ == word_list()[i as int],
{
    let s: &str = match i {
        0 => "apple",
        1 => "apricot",
        2 => "artichoke",
        3 => "avocado",
        4 => "banana",
        5 => "beet",
        6 => "bell pepper",
        7 => "blackberry",
        8 => "blueberry",
        9 => "broccoli",
        10 => "brussels sprouts",
        11 => "cabbage",
        12 => "carrot",
        13 => "cauliflower",
        14 => "cherry",
        15 => "corn",
        16 => "cucumber",
        17 => "eggplant",
        18 => "fennel",
        19 => "garlic",
        20 => "grapefruit",
        21 => "grapes",
        22 => "honeydew melon",
        23 => "kale",
        24 => "kiwi",
        25 => "leek",
        26 => "lemon",
        27 => "lettuce",
        28 => "mango",
        29 => "mandarin",
        30 => "nectarine",
        31 => "onion",
        32 => "orange",
        33 => "papaya",
        34 => "parsnip",
        35 => "peach",
        36 => "pear",
        37 => "peas",
        38 => "pineapple",
        39 => "plum",
        40 => "pomegranate",
        41 => "potato",
        42 => "pumpkin",
        43 => "raisins",
        44 => "radish",
        45 => "raspberry",
        46 => "rhubarb",
        47 => "spinach",
        48 => "squash",
        49 => "strawberry",
        50 => "sweet potato",
        51 => "tomato",
        52 => "turnip",
        _ => "watermelon",
    };
    String::from_str(s)
}

/// Every prompt in the list is non-empty, so a room's prompt, which is
/// always drawn from the list, is never the empty string.
pub proof fn lemma_prompt_words_nonempty(s: Seq<char>)
    requires
        is_prompt_word(s),
    ensures
        s.len() > 0,
{
    reveal_strlit("apple");
    reveal_strlit("apricot");
    reveal_strlit("artichoke");
    reveal_strlit("avocado");
    reveal_strlit("banana");
    reveal_strlit("beet");
    reveal_strlit("bell pepper");
    reveal_strlit("blackberry");
    reveal_strlit("blueberry");
    reveal_strlit("broccoli");
    reveal_strlit("brussels sprouts");
    reveal_strlit("cabbage");
    reveal_strlit("carrot");
    reveal_strlit("cauliflower");
    reveal_strlit("cherry");
    reveal_strlit("corn");
    reveal_strlit("cucumber");
    reveal_strlit("eggplant");
    reveal_strlit("fennel");
    reveal_strlit("garlic");
    reveal_strlit("grapefruit");
    reveal_strlit("grapes");
    reveal_strlit("honeydew melon");
    reveal_strlit("kale");
    reveal_strlit("kiwi");
    reveal_strlit("leek");
    reveal_strlit("lemon");
    reveal_strlit("lettuce");
    reveal_strlit("mango");
    reveal_strlit("mandarin");
    reveal_strlit("nectarine");
    reveal_strlit("onion");
    reveal_strlit("orange");
    reveal_strlit("papaya");
    reveal_strlit("parsnip");
    reveal_strlit("peach");
    reveal_strlit("pear");
    reveal_strlit("peas");
    reveal_strlit("pineapple");
    reveal_strlit("plum");
    reveal_strlit("pomegranate");
    reveal_strlit("potato");
    reveal_strlit("pumpkin");
    reveal_strlit("raisins");
    reveal_strlit("radish");
    reveal_strlit("raspberry");
    reveal_strlit("rhubarb");
    reveal_strlit("spinach");
    reveal_strlit("squash");
    reveal_strlit("strawberry");
    reveal_strlit("sweet potato");
    reveal_strlit("tomato");
    reveal_strlit("turnip");
    reveal_strlit("watermelon");
    let i = choose|i: int| 0 <= i < word_list().len() && word_list()[i] == s;
    assert(word_list()[i].len() > 0);
}

/// The first two prompts of the list differ, so for any prompt at least one
/// of them is something else: excluding a single word never empties the pool.
pub proof fn lemma_two_words_differ()
    ensures
        word_list()[0] != word_list()[1],
{
    reveal_strlit("apple");
    reveal_strlit("apricot");
    assert(word_list()[0].len() == 5);
    assert(word_list()[1].len() == 7);
}

} // verus!
