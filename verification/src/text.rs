//! Text handling around prompts and guesses: whitespace trimming, case
//! folding, and masking of the secret prompt for guessers. The Unicode
//! character classes and the case folding itself come from the standard
//! library and are only named here, never restated.

use vstd::prelude::*;
use vstd::string::StrSliceExecFns;

verus! {

/// Whether `c` is a Unicode letter, as `char::is_alphabetic` decides it.
pub uninterp spec fn is_alpha(c: char) -> bool;

/// Whether `c` is Unicode whitespace, as `char::is_whitespace` decides it.
pub uninterp spec fn is_white(c: char) -> bool;

/// The Unicode lowercasing of `s`, as `str::to_lowercase` computes it: a
/// function of the characters alone.
pub uninterp spec fn lower_of(s: Seq<char>) -> Seq<char>;

/// Relies on `char::is_alphabetic`: a property of the character alone.
pub assume_specification[ char::is_alphabetic ](c: char) -> (r: bool)
    ensures
        r == is_alpha(c),
;

/// Relies on `char::is_whitespace`: a property of the character alone.
pub assume_specification[ char::is_whitespace ](c: char) -> (r: bool)
    ensures
        r == is_white(c),
;

/// Relies on `str::to_lowercase`: the lowercased text depends on the
/// characters alone.
pub assume_specification[ str::to_lowercase ](s: &str) -> (r: String)
    ensures
        r@ == lower_of(s@),
;

/// Relies on `String::push`: appends the given character to the end.
#[verifier::external_body]
pub(crate) fn push_char(s: &mut String, c: char)
    ensures
        final(s)@ == old(s)@.push(c),
{
    s.push(c)
}

/// `s` without its leading whitespace.
pub open spec fn drop_leading_white(s: Seq<char>) -> Seq<char>
    decreases s.len(),
{
    if s.len() == 0 {
        s
    } else if is_white(s.first()) {
        drop_leading_white(s.drop_first())
    } else {
        s
    }
}

/// `s` without its trailing whitespace.
pub open spec fn drop_trailing_white(s: Seq<char>) -> Seq<char>
    decreases s.len(),
{
    if s.len() == 0 {
        s
    } else if is_white(s.last()) {
        drop_trailing_white(s.drop_last())
    } else {
        s
    }
}

/// `s` without leading and trailing whitespace, as `str::trim` leaves it.
pub open spec fn trim_spec(s: Seq<char>) -> Seq<char> {
    drop_trailing_white(drop_leading_white(s))
}

proof fn lemma_drop_leading_at(s: Seq<char>, a: int)
    requires
        0 <= a <= s.len(),
        forall|i: int| 0 <= i < a ==> is_white(s[i]),
        a < s.len() ==> !is_white(s[a]),
    ensures
        drop_leading_white(s) =~= s.subrange(a, s.len() as int),
    decreases a,
{
    if a == 0 {
        if s.len() == 0 {
            assert(drop_leading_white(s) =~= s.subrange(0, s.len() as int));
        } else {
            assert(!is_white(s.first()));
            assert(drop_leading_white(s) =~= s.subrange(0, s.len() as int));
        }
    } else {
        assert(is_white(s.first()));
        let t = s.drop_first();
        assert(forall|i: int| 0 <= i < a - 1 ==> is_white(t[i]));
        lemma_drop_leading_at(t, a - 1);
        assert(t.subrange(a - 1, t.len() as int) =~= s.subrange(a, s.len() as int));
    }
}

proof fn lemma_drop_trailing_at(s: Seq<char>, b: int)
    requires
        0 <= b <= s.len(),
        forall|i: int| b <= i < s.len() ==> is_white(s[i]),
        b > 0 ==> !is_white(s[b - 1]),
    ensures
        drop_trailing_white(s) =~= s.subrange(0, b),
    decreases s.len() - b,
{
    if b == s.len() {
        if s.len() == 0 {
            assert(drop_trailing_white(s) =~= s.subrange(0, b));
        } else {
            assert(!is_white(s.last()));
            assert(drop_trailing_white(s) =~= s.subrange(0, b));
        }
    } else {
        assert(is_white(s.last()));
        let t = s.drop_last();
        assert(forall|i: int| b <= i < t.len() ==> is_white(t[i]));
        lemma_drop_trailing_at(t, b);
        assert(t.subrange(0, b) =~= s.subrange(0, b));
    }
}

/// `s` without leading and trailing whitespace, exactly [`trim_spec`].
pub fn trim_str(s: &str) -> (r: &str)
    ensures
        r@ == trim_spec(s@),
{
    let n = s.unicode_len();
    let mut a: usize = 0;
    while a < n && s.get_char(a).is_whitespace()
        invariant
            n == s@.len(),
            a <= n,
            forall|i: int| 0 <= i < a ==> is_white(s@[i]),
        decreases n - a,
    {
        a = a + 1;
    }
    let mut b: usize = n;
    while b > a && s.get_char(b - 1).is_whitespace()
        invariant
            n == s@.len(),
            a <= b <= n,
            forall|i: int| b <= i < n ==> is_white(s@[i]),
            a < n ==> !is_white(s@[a as int]),
        decreases b,
    {
        b = b - 1;
    }
    proof {
        lemma_drop_leading_at(s@, a as int);
        let t = s@.subrange(a as int, n as int);
        assert(forall|i: int| b - a <= i < t.len() ==> is_white(t[i]));
        lemma_drop_trailing_at(t, b - a);
        assert(t.subrange(0, b - a) =~= s@.subrange(a as int, b as int));
    }
    s.substring_char(a, b)
}

/// The prompt as a guesser sees it: every letter replaced by an underscore,
/// every other character (spaces, punctuation, digits) left visible.
pub open spec fn mask_spec(s: Seq<char>) -> Seq<char> {
    Seq::new(
        s.len(),
        |i: int|
            if is_alpha(s[i]) {
                '_'
            } else {
                s[i]
            },
    )
}

/// Mask a prompt for a viewer who does not hold the drawing turn.
pub fn mask_prompt(s: &str) -> (r: String)
    ensures
        r@ == mask_spec(s@),
{
    let n = s.unicode_len();
    let mut out = String::new();
    let mut k: usize = 0;
    while k < n
        invariant
            n == s@.len(),
            k <= n,
            out@ =~= mask_spec(s@).subrange(0, k as int),
        decreases n - k,
    {
        let c = s.get_char(k);
        if c.is_alphabetic() {
            push_char(&mut out, '_');
        } else {
            push_char(&mut out, c);
        }
        proof {
            assert(out@ =~= mask_spec(s@).subrange(0, k + 1));
        }
        k = k + 1;
    }
    proof {
        assert(mask_spec(s@).subrange(0, n as int) =~= mask_spec(s@));
    }
    out
}

/// Whether a chat line is a correct guess: the text, trimmed and lowercased,
/// must equal the prompt (prompts are stored lowercase).
pub fn check_guess(text: &str, prompt: &String) -> (r: bool)
    ensures
        r == (lower_of(trim_spec(text@)) == prompt@),
{
    let trimmed = trim_str(text);
    let lowered = trimmed.to_lowercase();
    lowered == *prompt
}

} // verus!
