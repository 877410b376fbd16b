//! The wire text of snapshots and messages. A canvas is written as
//! `width ' ' height ' '` followed by one `name;` group per cell; strings in
//! the game and chat payloads are length-prefixed. The canvas codec is
//! two-way, and encoding is injective, so a decoded snapshot is exactly the
//! canvas that was sent.

use vstd::prelude::*;
use vstd::string::StrSliceExecFns;
use vstd::string::StringExecFns;

use crate::canvas::{CanvasV, DrawCanvas};
use crate::color::{color_name_spec, Color};
use crate::messages::{ChatMessage, ChatMessageV, GameInfo, GameInfoV};
use crate::player::PlayerV;
use crate::num::{
    char_to_digit, dec_seq, digit_char, digit_val, lemma_dec_all_digits, lemma_dec_injective,
    lemma_dec_len, lemma_dec_no_leading_zero, lemma_dec_prefix_le, lemma_dec_step,
    lemma_digit_roundtrip, push_dec,
};
use crate::text::push_char;

verus! {

/// The cell section of a canvas payload: each cell's color name, each
/// followed by a semicolon.
pub open spec fn encode_cells(grid: Seq<Color>) -> Seq<char>
    decreases grid.len(),
{
    if grid.len() == 0 {
        Seq::empty()
    } else {
        color_name_spec(grid.first()) + seq![';'] + encode_cells(grid.drop_first())
    }
}

/// The full canvas payload: both dimensions in decimal, then the cells.
pub open spec fn encode_canvas_spec(c: CanvasV) -> Seq<char> {
    dec_seq(c.width) + seq![' '] + dec_seq(c.height) + seq![' '] + encode_cells(c.grid)
}

/// No color name is empty or mentions the cell terminator.
proof fn lemma_color_names_clean(c: Color)
    ensures
        color_name_spec(c).len() >= 1,
        forall|i: int| 0 <= i < color_name_spec(c).len() ==> color_name_spec(c)[i] != ';',
{
    reveal_strlit("Red");
    reveal_strlit("Orange");
    reveal_strlit("Yellow");
    reveal_strlit("Lime");
    reveal_strlit("Green");
    reveal_strlit("Blue");
    reveal_strlit("Cyan");
    reveal_strlit("Magenta");
    reveal_strlit("Purple");
    reveal_strlit("Black");
    reveal_strlit("Gray");
    reveal_strlit("White");
}

/// Two colors with the same name are the same color.
proof fn lemma_color_name_injective(a: Color, b: Color)
    requires
        color_name_spec(a) == color_name_spec(b),
    ensures
        a == b,
{
    reveal_strlit("Red");
    reveal_strlit("Orange");
    reveal_strlit("Yellow");
    reveal_strlit("Lime");
    reveal_strlit("Green");
    reveal_strlit("Blue");
    reveal_strlit("Cyan");
    reveal_strlit("Magenta");
    reveal_strlit("Purple");
    reveal_strlit("Black");
    reveal_strlit("Gray");
    reveal_strlit("White");
    lemma_color_name_shape(a);
    lemma_color_name_shape(b);
    assert(color_name_spec(a).len() == color_name_spec(b).len());
    assert(color_name_spec(a)[0] == color_name_spec(b)[0]);
}

/// A color name's length and first letter, which together identify it.
proof fn lemma_color_name_shape(c: Color)
    ensures
        (match c {
            Color::Red => color_name_spec(c).len() == 3 && color_name_spec(c)[0] == 'R',
            Color::Orange => color_name_spec(c).len() == 6 && color_name_spec(c)[0] == 'O',
            Color::Yellow => color_name_spec(c).len() == 6 && color_name_spec(c)[0] == 'Y',
            Color::Lime => color_name_spec(c).len() == 4 && color_name_spec(c)[0] == 'L',
            Color::Green => color_name_spec(c).len() == 5 && color_name_spec(c)[0] == 'G',
            Color::Blue => color_name_spec(c).len() == 4 && color_name_spec(c)[0] == 'B',
            Color::Cyan => color_name_spec(c).len() == 4 && color_name_spec(c)[0] == 'C',
            Color::Magenta => color_name_spec(c).len() == 7 && color_name_spec(c)[0] == 'M',
            Color::Purple => color_name_spec(c).len() == 6 && color_name_spec(c)[0] == 'P',
            Color::Black => color_name_spec(c).len() == 5 && color_name_spec(c)[0] == 'B',
            Color::Gray => color_name_spec(c).len() == 4 && color_name_spec(c)[0] == 'G',
            Color::White => color_name_spec(c).len() == 5 && color_name_spec(c)[0] == 'W',
        }),
{
    reveal_strlit("Red");
    reveal_strlit("Orange");
    reveal_strlit("Yellow");
    reveal_strlit("Lime");
    reveal_strlit("Green");
    reveal_strlit("Blue");
    reveal_strlit("Cyan");
    reveal_strlit("Magenta");
    reveal_strlit("Purple");
    reveal_strlit("Black");
    reveal_strlit("Gray");
    reveal_strlit("White");
}

/// Splitting at a terminator is unambiguous: when neither head mentions the
/// terminator, equal concatenations have equal heads and equal tails.
proof fn lemma_term_split(a: Seq<char>, b: Seq<char>, x: Seq<char>, y: Seq<char>, t: char)
    requires
        forall|i: int| 0 <= i < a.len() ==> a[i] != t,
        forall|i: int| 0 <= i < b.len() ==> b[i] != t,
        a + seq![t] + x == b + seq![t] + y,
    ensures
        a == b,
        x == y,
{
    let s = a + seq![t] + x;
    assert(s[a.len() as int] == t);
    assert(s[b.len() as int] == t);
    if a.len() < b.len() {
        assert(s[a.len() as int] == b[a.len() as int]);
        assert(false);
    }
    if b.len() < a.len() {
        assert(s[b.len() as int] == a[b.len() as int]);
        assert(false);
    }
    assert forall|i: int| 0 <= i < a.len() implies a[i] == b[i] by {
        assert((a + seq![t] + x)[i] == a[i]);
        assert((b + seq![t] + y)[i] == b[i]);
    }
    assert(a =~= b);
    assert(seq![t].len() == 1);
    assert((a + seq![t] + x).len() == a.len() + 1 + x.len());
    assert((b + seq![t] + y).len() == b.len() + 1 + y.len());
    assert(x.len() == y.len());
    assert forall|i: int| 0 <= i < x.len() implies x[i] == y[i] by {
        assert((a + seq![t] + x)[a.len() + 1 + i] == x[i]);
        assert((b + seq![t] + y)[b.len() + 1 + i] == y[i]);
    }
    assert(x =~= y);
}

/// A numeral mentions no terminator, for any non-digit terminator.
proof fn lemma_dec_no_char(n: nat, t: char)
    requires
        digit_val(t) is None,
    ensures
        forall|i: int| 0 <= i < dec_seq(n).len() ==> dec_seq(n)[i] != t,
{
    lemma_dec_all_digits(n);
}

/// Adding one cell extends the cell section by one `name;` group.
proof fn lemma_cells_push(g: Seq<Color>, c: Color)
    ensures
        encode_cells(g.push(c)) == encode_cells(g) + color_name_spec(c) + seq![';'],
    decreases g.len(),
{
    if g.len() == 0 {
        assert(g.push(c).drop_first() =~= Seq::<Color>::empty());
        assert(g.push(c).first() == c);
        assert(encode_cells(g.push(c)) == color_name_spec(c) + seq![';'] + encode_cells(
            Seq::<Color>::empty(),
        ));
        assert(encode_cells(Seq::<Color>::empty()) == Seq::<char>::empty());
        assert(encode_cells(g) == Seq::<char>::empty());
        assert(encode_cells(g.push(c)) =~= encode_cells(g) + color_name_spec(c) + seq![';']);
    } else {
        assert(g.push(c).first() == g.first());
        assert(g.push(c).drop_first() =~= g.drop_first().push(c));
        assert(g.push(c).len() != 0);
        assert(encode_cells(g.push(c)) == color_name_spec(g.first()) + seq![';'] + encode_cells(
            g.drop_first().push(c),
        ));
        lemma_cells_push(g.drop_first(), c);
        assert(encode_cells(g) == color_name_spec(g.first()) + seq![';'] + encode_cells(
            g.drop_first(),
        ));
        assert(encode_cells(g.push(c)) =~= encode_cells(g) + color_name_spec(c) + seq![';']);
    }
}

/// When one cell section is a prefix of another (continued by `t`), the
/// shorter grid is a prefix of the longer and `t` encodes the remainder.
proof fn lemma_cells_prefix(a: Seq<Color>, t: Seq<char>, g: Seq<Color>)
    requires
        encode_cells(a) + t == encode_cells(g),
    ensures
        a.len() <= g.len(),
        a == g.subrange(0, a.len() as int),
        t == encode_cells(g.skip(a.len() as int)),
    decreases a.len(),
{
    if a.len() == 0 {
        assert(a =~= g.subrange(0, 0));
        assert(g.skip(0) =~= g);
        assert(t =~= encode_cells(g));
    } else {
        lemma_color_names_clean(a.first());
        if g.len() == 0 {
            assert(encode_cells(a).len() >= 1) by {
                assert(encode_cells(a) == color_name_spec(a.first()) + seq![';'] + encode_cells(
                    a.drop_first(),
                ));
            }
            assert(false);
        }
        lemma_color_names_clean(g.first());
        assert((color_name_spec(a.first()) + seq![';'] + (encode_cells(a.drop_first()) + t)) == (
        color_name_spec(g.first()) + seq![';'] + encode_cells(g.drop_first()))) by {
            assert(color_name_spec(a.first()) + seq![';'] + (encode_cells(a.drop_first()) + t)
                =~= encode_cells(a) + t);
            assert(color_name_spec(g.first()) + seq![';'] + encode_cells(g.drop_first())
                =~= encode_cells(g));
        }
        lemma_term_split(
            color_name_spec(a.first()),
            color_name_spec(g.first()),
            encode_cells(a.drop_first()) + t,
            encode_cells(g.drop_first()),
            ';',
        );
        lemma_color_name_injective(a.first(), g.first());
        lemma_cells_prefix(a.drop_first(), t, g.drop_first());
        assert forall|i: int| 0 <= i < a.len() implies a[i] == g.subrange(0, a.len() as int)[i] by {
            if i > 0 {
                assert(a[i] == a.drop_first()[i - 1]);
                assert(a.drop_first()[i - 1] == g.drop_first().subrange(
                    0,
                    a.drop_first().len() as int,
                )[i - 1]);
                assert(g.drop_first()[i - 1] == g[i]);
            }
        }
        assert(a =~= g.subrange(0, a.len() as int));
        assert(g.drop_first().skip(a.len() - 1) =~= g.skip(a.len() as int));
    }
}

/// Equal cell sections come from equal grids.
proof fn lemma_cells_injective(g1: Seq<Color>, g2: Seq<Color>)
    requires
        encode_cells(g1) == encode_cells(g2),
    ensures
        g1 == g2,
{
    lemma_cells_prefix(g1, Seq::empty(), g2);
    assert(encode_cells(g1) + Seq::<char>::empty() =~= encode_cells(g2));
    lemma_cells_prefix(g2, Seq::empty(), g1);
    assert(encode_cells(g2) + Seq::<char>::empty() =~= encode_cells(g1));
    assert(g1 =~= g2);
}

/// Canvas encoding is injective: a payload determines the whole canvas, so
/// decoding a serialized canvas reproduces the identical grid of equal
/// length and per-cell color values.
pub proof fn lemma_canvas_encoding_injective(a: CanvasV, b: CanvasV)
    requires
        encode_canvas_spec(a) == encode_canvas_spec(b),
    ensures
        a == b,
{
    lemma_dec_no_char(a.width, ' ');
    lemma_dec_no_char(b.width, ' ');
    assert((dec_seq(a.width) + seq![' '] + (dec_seq(a.height) + seq![' '] + encode_cells(a.grid)))
        == (dec_seq(b.width) + seq![' '] + (dec_seq(b.height) + seq![' '] + encode_cells(
        b.grid,
    )))) by {
        assert(dec_seq(a.width) + seq![' '] + (dec_seq(a.height) + seq![' '] + encode_cells(
            a.grid,
        )) =~= encode_canvas_spec(a));
        assert(dec_seq(b.width) + seq![' '] + (dec_seq(b.height) + seq![' '] + encode_cells(
            b.grid,
        )) =~= encode_canvas_spec(b));
    }
    lemma_term_split(
        dec_seq(a.width),
        dec_seq(b.width),
        dec_seq(a.height) + seq![' '] + encode_cells(a.grid),
        dec_seq(b.height) + seq![' '] + encode_cells(b.grid),
        ' ',
    );
    lemma_dec_injective(a.width, b.width);
    lemma_dec_no_char(a.height, ' ');
    lemma_dec_no_char(b.height, ' ');
    assert((dec_seq(a.height) + seq![' '] + encode_cells(a.grid)) == (dec_seq(b.height)
        + seq![' '] + encode_cells(b.grid)));
    lemma_term_split(
        dec_seq(a.height),
        dec_seq(b.height),
        encode_cells(a.grid),
        encode_cells(b.grid),
        ' ',
    );
    lemma_dec_injective(a.height, b.height);
    lemma_cells_injective(a.grid, b.grid);
    assert(a =~= b);
}

/// A canvas value the machine can hold: dimensions and cell count that fit
/// an in-memory [`DrawCanvas`].
pub open spec fn representable(c: CanvasV) -> bool {
    c.width <= usize::MAX && c.height <= usize::MAX && c.grid.len() <= usize::MAX
}

/// A run of digits at the front of `dec_seq(v) + sep + rest` lies inside the
/// numeral.
proof fn lemma_consumed_prefix(
    tail: Seq<char>,
    v: nat,
    rest: Seq<char>,
    consumed: Seq<char>,
    sep: char,
)
    requires
        digit_val(sep) is None,
        tail == dec_seq(v) + seq![sep] + rest,
        consumed.len() <= tail.len(),
        consumed == tail.subrange(0, consumed.len() as int),
        forall|m: int| 0 <= m < consumed.len() ==> digit_val(#[trigger] consumed[m]) is Some,
    ensures
        consumed.len() <= dec_seq(v).len(),
        consumed == dec_seq(v).subrange(0, consumed.len() as int),
{
    lemma_dec_all_digits(v);
    let dl = dec_seq(v).len() as int;
    assert(tail[dl] == sep);
    if consumed.len() > dl {
        assert(consumed[dl] == tail[dl]);
        assert(false);
    }
    assert forall|m: int| 0 <= m < consumed.len() implies consumed[m] == dec_seq(v)[m] by {
        assert(consumed[m] == tail[m]);
    }
    assert(consumed =~= dec_seq(v).subrange(0, consumed.len() as int));
}

/// Read a canonical decimal numeral starting at `start`, followed by `sep`.
/// Returns the value and the index just past the separator; `None` exactly
/// when nothing of that shape (with a machine-representable value) starts
/// there.
fn parse_dec_sep(s: &str, start: usize, sep: char) -> (r: Option<(usize, usize)>)
    requires
        start <= s@.len(),
        digit_val(sep) is None,
    ensures
        (match r {
            Some(pair) => start < pair.1 <= s@.len() && s@.subrange(start as int, pair.1 as int)
                == dec_seq(pair.0 as nat) + seq![sep],
            None => forall|v: nat, rest: Seq<char>|
                v <= usize::MAX ==> s@.subrange(start as int, s@.len() as int) != dec_seq(v)
                    + seq![sep] + rest,
        }),
{
    let n = s.unicode_len();
    let mut i: usize = start;
    let mut acc: usize = 0;
    loop
        invariant
            n == s@.len(),
            start <= i <= n,
            digit_val(sep) is None,
            i > start ==> s@.subrange(start as int, i as int) == dec_seq(acc as nat),
            i > start && acc == 0 ==> i == start + 1,
        decreases n - i,
    {
        let ghost tail = s@.subrange(start as int, n as int);
        let ghost consumed = s@.subrange(start as int, i as int);
        proof {
            assert(consumed =~= tail.subrange(0, (i - start) as int));
            if i > start {
                lemma_dec_all_digits(acc as nat);
            }
        }
        if i == n {
            proof {
                assert forall|v: nat, rest: Seq<char>|
                    v <= usize::MAX implies tail != dec_seq(v) + seq![sep] + rest by {
                    if tail == dec_seq(v) + seq![sep] + rest {
                        lemma_dec_len(v);
                        if i == start {
                            assert(tail.len() == 0);
                            assert((dec_seq(v) + seq![sep] + rest).len() >= 2);
                        } else {
                            lemma_consumed_prefix(tail, v, rest, consumed, sep);
                            assert(consumed.len() == tail.len());
                            assert(tail.len() >= dec_seq(v).len() + 1);
                        }
                        assert(false);
                    }
                }
            }
            return None;
        }
        let c = s.get_char(i);
        match char_to_digit(c) {
            None => {
                if i == start {
                    proof {
                        assert forall|v: nat, rest: Seq<char>|
                            v <= usize::MAX implies tail != dec_seq(v) + seq![sep] + rest by {
                            if tail == dec_seq(v) + seq![sep] + rest {
                                lemma_dec_len(v);
                                lemma_dec_all_digits(v);
                                assert(tail[0] == dec_seq(v)[0]);
                                assert(tail[0] == c);
                                assert(false);
                            }
                        }
                    }
                    return None;
                }
                if c == sep {
                    proof {
                        assert(s@.subrange(start as int, i + 1) =~= s@.subrange(
                            start as int,
                            i as int,
                        ) + seq![c]);
                    }
                    return Some((acc, i + 1));
                }
                proof {
                    assert forall|v: nat, rest: Seq<char>|
                        v <= usize::MAX implies tail != dec_seq(v) + seq![sep] + rest by {
                        if tail == dec_seq(v) + seq![sep] + rest {
                            lemma_dec_all_digits(v);
                            lemma_consumed_prefix(tail, v, rest, consumed, sep);
                            let j = i - start;
                            if j < dec_seq(v).len() {
                                assert(tail[j as int] == dec_seq(v)[j as int]);
                                assert(tail[j as int] == c);
                            } else {
                                assert(tail[j as int] == sep);
                                assert(tail[j as int] == c);
                            }
                            assert(false);
                        }
                    }
                }
                return None;
            },
            Some(d) => {
                if i == start {
                    acc = d;
                    proof {
                        lemma_digit_roundtrip(c);
                        assert(s@.subrange(start as int, start + 1) =~= seq![c]);
                        assert(dec_seq(d as nat) =~= seq![digit_char(d as nat)]);
                    }
                } else {
                    if acc == 0 {
                        proof {
                            assert forall|v: nat, rest: Seq<char>|
                                v <= usize::MAX implies tail != dec_seq(v) + seq![sep] + rest by {
                                if tail == dec_seq(v) + seq![sep] + rest {
                                    lemma_dec_len(v);
                                    lemma_consumed_prefix(tail, v, rest, consumed, sep);
                                    assert(consumed.len() == 1);
                                    assert(consumed[0] == dec_seq(0nat)[0]);
                                    assert(dec_seq(v)[0] == '0');
                                    if dec_seq(v).len() == 1 {
                                        assert(dec_seq(v)[0] == digit_char(v));
                                        if v >= 10 {
                                            lemma_dec_len(v);
                                        }
                                        assert(v < 10);
                                        assert(v == 0);
                                        assert(tail[1] == sep);
                                        assert(tail[1] == c);
                                    } else {
                                        assert(v >= 10) by {
                                            if v < 10 {
                                                assert(dec_seq(v).len() == 1);
                                            }
                                        }
                                        lemma_dec_no_leading_zero(v);
                                    }
                                    assert(false);
                                }
                            }
                        }
                        return None;
                    }
                    let overflowed: bool;
                    let mut v2: usize = 0;
                    match acc.checked_mul(10) {
                        Some(m) => {
                            match m.checked_add(d) {
                                Some(t) => {
                                    overflowed = false;
                                    v2 = t;
                                },
                                None => {
                                    overflowed = true;
                                },
                            }
                        },
                        None => {
                            overflowed = true;
                        },
                    }
                    if overflowed {
                        proof {
                            assert forall|v: nat, rest: Seq<char>|
                                v <= usize::MAX implies tail != dec_seq(v) + seq![sep] + rest by {
                                if tail == dec_seq(v) + seq![sep] + rest {
                                    lemma_dec_all_digits(v);
                                    lemma_consumed_prefix(tail, v, rest, consumed, sep);
                                    let j = i - start;
                                    if j == dec_seq(v).len() {
                                        assert(tail[j as int] == sep);
                                        assert(tail[j as int] == c);
                                        assert(false);
                                    }
                                    lemma_digit_roundtrip(c);
                                    lemma_dec_step(acc as nat, d as nat);
                                    let big = acc as nat * 10 + d as nat;
                                    assert(dec_seq(big) =~= dec_seq(v).subrange(0, j + 1)) by {
                                        assert(dec_seq(big) == dec_seq(acc as nat).push(
                                            digit_char(d as nat),
                                        ));
                                        assert(consumed == dec_seq(v).subrange(0, j as int));
                                        assert(dec_seq(v)[j as int] == tail[j as int]);
                                        assert(tail[j as int] == c);
                                        assert(dec_seq(v).subrange(0, j + 1) =~= dec_seq(
                                            v,
                                        ).subrange(0, j as int).push(dec_seq(v)[j as int]));
                                    }
                                    assert(dec_seq(big) + dec_seq(v).subrange(
                                        j + 1,
                                        dec_seq(v).len() as int,
                                    ) =~= dec_seq(v));
                                    lemma_dec_prefix_le(
                                        big,
                                        v,
                                        dec_seq(v).subrange(j + 1, dec_seq(v).len() as int),
                                    );
                                    assert(big <= usize::MAX);
                                    assert(acc * 10 + d > usize::MAX);
                                    assert(false);
                                }
                            }
                        }
                        return None;
                    }
                    proof {
                        lemma_digit_roundtrip(c);
                        lemma_dec_step(acc as nat, d as nat);
                        assert(s@.subrange(start as int, i + 1) =~= s@.subrange(
                            start as int,
                            i as int,
                        ).push(c));
                    }
                    acc = v2;
                }
                i = i + 1;
            },
        }
    }
}

/// The color whose stable name this is, if any.
fn color_from_name(seg: &String) -> (r: Option<Color>)
    ensures
        (match r {
            Some(c) => seg@ == color_name_spec(c),
            None => forall|c: Color| seg@ != color_name_spec(c),
        }),
{
    if *seg == String::from_str("Red") {
        Some(Color::Red)
    } else if *seg == String::from_str("Orange") {
        Some(Color::Orange)
    } else if *seg == String::from_str("Yellow") {
        Some(Color::Yellow)
    } else if *seg == String::from_str("Lime") {
        Some(Color::Lime)
    } else if *seg == String::from_str("Green") {
        Some(Color::Green)
    } else if *seg == String::from_str("Blue") {
        Some(Color::Blue)
    } else if *seg == String::from_str("Cyan") {
        Some(Color::Cyan)
    } else if *seg == String::from_str("Magenta") {
        Some(Color::Magenta)
    } else if *seg == String::from_str("Purple") {
        Some(Color::Purple)
    } else if *seg == String::from_str("Black") {
        Some(Color::Black)
    } else if *seg == String::from_str("Gray") {
        Some(Color::Gray)
    } else if *seg == String::from_str("White") {
        Some(Color::White)
    } else {
        None
    }
}

/// Read `name;` groups from `start` to the end of the input. `None` exactly
/// when that stretch is not a cell section.
fn parse_cells(s: &str, start: usize) -> (r: Option<Vec<Color>>)
    requires
        start <= s@.len(),
    ensures
        (match r {
            Some(g) => encode_cells(g@) == s@.subrange(start as int, s@.len() as int),
            None => forall|g: Seq<Color>|
                encode_cells(g) != s@.subrange(start as int, s@.len() as int),
        }),
{
    let n = s.unicode_len();
    let mut cells: Vec<Color> = Vec::new();
    let mut i: usize = start;
    while i < n
        invariant
            n == s@.len(),
            start <= i <= n,
            encode_cells(cells@) == s@.subrange(start as int, i as int),
        decreases n - i,
    {
        let ghost tail = s@.subrange(start as int, n as int);
        let ghost done = s@.subrange(start as int, i as int);
        let mut j: usize = i;
        let mut seg = String::new();
        while j < n && s.get_char(j) != ';'
            invariant
                n == s@.len(),
                i <= j <= n,
                seg@ == s@.subrange(i as int, j as int),
                forall|m: int| i <= m < j ==> s@[m] != ';',
            decreases n - j,
        {
            let c = s.get_char(j);
            push_char(&mut seg, c);
            proof {
                assert(seg@ =~= s@.subrange(i as int, j + 1));
            }
            j = j + 1;
        }
        if j == n {
            proof {
                assert forall|g: Seq<Color>| encode_cells(g) != tail by {
                    if encode_cells(g) == tail {
                        assert(encode_cells(cells@) + s@.subrange(i as int, n as int) =~= tail);
                        lemma_cells_prefix(cells@, s@.subrange(i as int, n as int), g);
                        let g2 = g.skip(cells@.len() as int);
                        let remaining = s@.subrange(i as int, n as int);
                        assert(remaining.len() > 0);
                        assert(g2.len() > 0) by {
                            if g2.len() == 0 {
                                assert(encode_cells(g2).len() == 0);
                            }
                        }
                        lemma_color_names_clean(g2.first());
                        let nl = color_name_spec(g2.first()).len() as int;
                        assert(encode_cells(g2) == color_name_spec(g2.first()) + seq![';']
                            + encode_cells(g2.drop_first()));
                        assert(remaining[nl] == ';');
                        assert(s@[i + nl] == ';');
                        assert(false);
                    }
                }
            }
            return None;
        }
        match color_from_name(&seg) {
            Some(c) => {
                proof {
                    lemma_cells_push(cells@, c);
                    assert(s@.subrange(start as int, j + 1) =~= done + seg@ + seq![';']);
                    assert(cells@.push(c) =~= cells@.push(c));
                }
                cells.push(c);
                proof {
                    assert(encode_cells(cells@) =~= s@.subrange(start as int, j + 1));
                }
                i = j + 1;
            },
            None => {
                proof {
                    assert forall|g: Seq<Color>| encode_cells(g) != tail by {
                        if encode_cells(g) == tail {
                            assert(encode_cells(cells@) + s@.subrange(i as int, n as int) =~= tail);
                            lemma_cells_prefix(cells@, s@.subrange(i as int, n as int), g);
                            let g2 = g.skip(cells@.len() as int);
                            let remaining = s@.subrange(i as int, n as int);
                            assert(remaining.len() > 0);
                            assert(g2.len() > 0) by {
                                if g2.len() == 0 {
                                    assert(encode_cells(g2).len() == 0);
                                }
                            }
                            lemma_color_names_clean(g2.first());
                            let nl = color_name_spec(g2.first()).len() as int;
                            assert(encode_cells(g2) == color_name_spec(g2.first()) + seq![';']
                                + encode_cells(g2.drop_first()));
                            assert(remaining[nl] == ';');
                            if j - i < nl {
                                assert(remaining[(j - i) as int] == color_name_spec(g2.first())[(j
                                    - i) as int]);
                                assert(remaining[(j - i) as int] == s@[j as int]);
                                assert(s@[j as int] == ';');
                                assert(false);
                            }
                            if j - i > nl {
                                assert(s@[i + nl] == ';');
                                assert(false);
                            }
                            assert(seg@.len() == nl);
                            assert forall|m: int|
                                0 <= m < nl implies seg@[m] == color_name_spec(g2.first())[m] by {
                                assert(seg@[m] == s@[i + m]);
                                assert(remaining[m] == s@[i + m]);
                                assert(remaining[m] == color_name_spec(g2.first())[m]);
                            }
                            assert(seg@ =~= color_name_spec(g2.first()));
                            assert(false);
                        }
                    }
                }
                return None;
            },
        }
    }
    proof {
        assert(s@.subrange(start as int, n as int) =~= s@.subrange(start as int, i as int));
    }
    Some(cells)
}

/// Decode a canvas payload. Succeeds exactly on the encodings of
/// machine-representable, well-formed canvases, and yields back precisely
/// the canvas that was encoded.
pub fn decode_canvas(s: &str) -> (r: Option<DrawCanvas>)
    ensures
        (match r {
            Some(c) => c@.wf() && encode_canvas_spec(c@) == s@,
            None => forall|cv: CanvasV|
                cv.wf() && representable(cv) ==> encode_canvas_spec(cv) != s@,
        }),
{
    let n = s.unicode_len();
    proof {
        assert(s@.subrange(0, s@.len() as int) =~= s@);
    }
    let first = match parse_dec_sep(s, 0, ' ') {
        Some(p) => p,
        None => {
            proof {
                assert forall|cv: CanvasV|
                    cv.wf() && representable(cv) implies encode_canvas_spec(cv) != s@ by {
                    if encode_canvas_spec(cv) == s@ {
                        assert(dec_seq(cv.width) + seq![' '] + (dec_seq(cv.height) + seq![' ']
                            + encode_cells(cv.grid)) =~= encode_canvas_spec(cv));
                        assert(false);
                    }
                }
            }
            return None;
        },
    };
    let (w, i1) = first;
    let second = match parse_dec_sep(s, i1, ' ') {
        Some(p) => p,
        None => {
            proof {
                assert forall|cv: CanvasV|
                    cv.wf() && representable(cv) implies encode_canvas_spec(cv) != s@ by {
                    if encode_canvas_spec(cv) == s@ {
                        lemma_split_header(s@, w as nat, i1 as int, cv);
                        assert(s@.subrange(i1 as int, s@.len() as int) =~= dec_seq(cv.height)
                            + seq![' '] + encode_cells(cv.grid));
                        assert(false);
                    }
                }
            }
            return None;
        },
    };
    let (h, i2) = second;
    let grid = match parse_cells(s, i2) {
        Some(g) => g,
        None => {
            proof {
                assert forall|cv: CanvasV|
                    cv.wf() && representable(cv) implies encode_canvas_spec(cv) != s@ by {
                    if encode_canvas_spec(cv) == s@ {
                        lemma_split_header(s@, w as nat, i1 as int, cv);
                        lemma_split_second(s@, h as nat, i1 as int, i2 as int, cv);
                        assert(s@.subrange(i2 as int, s@.len() as int) =~= encode_cells(cv.grid));
                        assert(false);
                    }
                }
            }
            return None;
        },
    };
    let ghost me = CanvasV { width: w as nat, height: h as nat, grid: grid@ };
    proof {
        assert(encode_canvas_spec(me) =~= s@) by {
            assert(s@ =~= s@.subrange(0, i1 as int) + s@.subrange(i1 as int, i2 as int)
                + s@.subrange(i2 as int, s@.len() as int));
        }
    }
    let wide = match w.checked_mul(h) {
        Some(p) => p,
        None => {
            proof {
                assert forall|cv: CanvasV|
                    cv.wf() && representable(cv) implies encode_canvas_spec(cv) != s@ by {
                    if encode_canvas_spec(cv) == s@ {
                        lemma_canvas_encoding_injective(me, cv);
                        assert(cv.grid.len() <= usize::MAX);
                        assert(false);
                    }
                }
            }
            return None;
        },
    };
    if wide != grid.len() {
        proof {
            assert forall|cv: CanvasV|
                cv.wf() && representable(cv) implies encode_canvas_spec(cv) != s@ by {
                if encode_canvas_spec(cv) == s@ {
                    lemma_canvas_encoding_injective(me, cv);
                    assert(false);
                }
            }
        }
        return None;
    }
    let c = DrawCanvas { width: w, height: h, grid };
    proof {
        assert(c@ =~= me);
        assert(c@.wf());
    }
    Some(c)
}

/// In a canvas payload, the stretch after the first separator is the height
/// numeral, the second separator, and the cells.
proof fn lemma_split_header(sv: Seq<char>, w: nat, i1: int, cv: CanvasV)
    requires
        encode_canvas_spec(cv) == sv,
        0 < i1 <= sv.len(),
        sv.subrange(0, i1) == dec_seq(w) + seq![' '],
    ensures
        sv.subrange(i1, sv.len() as int) == dec_seq(cv.height) + seq![' '] + encode_cells(cv.grid),
        w == cv.width,
{
    lemma_dec_no_char(w, ' ');
    lemma_dec_no_char(cv.width, ' ');
    let back = sv.subrange(i1, sv.len() as int);
    assert(dec_seq(w) + seq![' '] + back =~= sv);
    assert(dec_seq(cv.width) + seq![' '] + (dec_seq(cv.height) + seq![' '] + encode_cells(cv.grid))
        =~= sv);
    lemma_term_split(
        dec_seq(w),
        dec_seq(cv.width),
        back,
        dec_seq(cv.height) + seq![' '] + encode_cells(cv.grid),
        ' ',
    );
    lemma_dec_injective(w, cv.width);
}

/// And the stretch after the second separator is exactly the cells.
proof fn lemma_split_second(sv: Seq<char>, h: nat, i1: int, i2: int, cv: CanvasV)
    requires
        encode_canvas_spec(cv) == sv,
        0 < i1 <= sv.len(),
        sv.subrange(0, i1) == dec_seq(cv.width) + seq![' '],
        i1 < i2 <= sv.len(),
        sv.subrange(i1, i2) == dec_seq(h) + seq![' '],
    ensures
        sv.subrange(i2, sv.len() as int) == encode_cells(cv.grid),
        h == cv.height,
{
    lemma_dec_no_char(h, ' ');
    lemma_dec_no_char(cv.height, ' ');
    let mid = sv.subrange(i1, sv.len() as int);
    assert(mid =~= dec_seq(cv.height) + seq![' '] + encode_cells(cv.grid)) by {
        lemma_split_header(sv, cv.width, i1, cv);
    }
    let back = sv.subrange(i2, sv.len() as int);
    assert(dec_seq(h) + seq![' '] + back =~= mid);
    lemma_term_split(dec_seq(h), dec_seq(cv.height), back, encode_cells(cv.grid), ' ');
    lemma_dec_injective(h, cv.height);
}

/// Serialize a canvas for the wire.
pub fn encode_canvas(c: &DrawCanvas) -> (r: String)
    ensures
        r@ == encode_canvas_spec(c@),
{
    let mut out = String::new();
    push_dec(&mut out, c.width);
    push_char(&mut out, ' ');
    push_dec(&mut out, c.height);
    push_char(&mut out, ' ');
    let ghost header = out@;
    let n = c.grid.len();
    let mut k: usize = 0;
    while k < n
        invariant
            n == c.grid.len(),
            k <= n,
            out@ == header + encode_cells(c.grid@.subrange(0, k as int)),
            header == dec_seq(c@.width) + seq![' '] + dec_seq(c@.height) + seq![' '],
        decreases n - k,
    {
        let name = c.grid[k].name();
        out.append(name);
        push_char(&mut out, ';');
        proof {
            lemma_cells_push(c.grid@.subrange(0, k as int), c.grid@[k as int]);
            assert(c.grid@.subrange(0, k + 1) =~= c.grid@.subrange(0, k as int).push(
                c.grid@[k as int],
            ));
            assert(out@ =~= header + encode_cells(c.grid@.subrange(0, k + 1)));
        }
        k = k + 1;
    }
    proof {
        assert(c.grid@.subrange(0, n as int) =~= c.grid@);
        assert(out@ =~= encode_canvas_spec(c@));
    }
    out
}

/// A length-prefixed string field: the character count in decimal, a space,
/// then the characters themselves (so the text may contain anything).
pub open spec fn encode_string_spec(s: Seq<char>) -> Seq<char> {
    dec_seq(s.len()) + seq![' '] + s
}

/// One roster entry on the wire: the username field, then `*` for the
/// drawer or `-` for a guesser.
pub open spec fn encode_player_spec(p: PlayerV) -> Seq<char> {
    encode_string_spec(p.name) + seq![
        if p.active {
            '*'
        } else {
            '-'
        },
    ]
}

/// The roster section: each entry in order.
pub open spec fn encode_players_spec(ps: Seq<PlayerV>) -> Seq<char>
    decreases ps.len(),
{
    if ps.len() == 0 {
        Seq::empty()
    } else {
        encode_player_spec(ps.first()) + encode_players_spec(ps.drop_first())
    }
}

/// The game snapshot payload: room code text, prompt as shown to this
/// viewer, then the counted roster.
pub open spec fn encode_game_info_spec(g: GameInfoV) -> Seq<char> {
    encode_string_spec(g.room_id) + encode_string_spec(g.prompt) + dec_seq(g.players.len())
        + seq![' '] + encode_players_spec(g.players)
}

/// A chat line on the wire: the sender field, then the text field.
pub open spec fn encode_chat_spec(m: ChatMessageV) -> Seq<char> {
    encode_string_spec(m.username) + encode_string_spec(m.text)
}

proof fn lemma_players_push(ps: Seq<PlayerV>, p: PlayerV)
    ensures
        encode_players_spec(ps.push(p)) == encode_players_spec(ps) + encode_player_spec(p),
    decreases ps.len(),
{
    if ps.len() == 0 {
        assert(ps.push(p).drop_first() =~= Seq::<PlayerV>::empty());
        assert(encode_players_spec(Seq::<PlayerV>::empty()) == Seq::<char>::empty());
        assert(encode_players_spec(ps.push(p)) =~= encode_players_spec(ps) + encode_player_spec(
            p,
        ));
    } else {
        assert(ps.push(p).first() == ps.first());
        assert(ps.push(p).drop_first() =~= ps.drop_first().push(p));
        lemma_players_push(ps.drop_first(), p);
        assert(encode_players_spec(ps.push(p)) =~= encode_players_spec(ps) + encode_player_spec(
            p,
        ));
    }
}

/// Append one length-prefixed string field.
fn push_string_field(out: &mut String, s: &String)
    ensures
        final(out)@ == old(out)@ + encode_string_spec(s@),
{
    let l = s.as_str().unicode_len();
    push_dec(out, l);
    push_char(out, ' ');
    out.append(s.as_str());
    proof {
        assert(out@ =~= old(out)@ + encode_string_spec(s@));
    }
}

/// Serialize a per-viewer game snapshot for the wire.
pub fn encode_game_info(gi: &GameInfo) -> (r: String)
    ensures
        r@ == encode_game_info_spec(gi@),
{
    let mut out = String::new();
    push_string_field(&mut out, &gi.room_id);
    push_string_field(&mut out, &gi.prompt);
    let n = gi.players.len();
    push_dec(&mut out, n);
    push_char(&mut out, ' ');
    let ghost header = out@;
    let mut k: usize = 0;
    while k < n
        invariant
            n == gi.players.len(),
            k <= n,
            out@ == header + encode_players_spec(gi@.players.subrange(0, k as int)),
        decreases n - k,
    {
        push_string_field(&mut out, &gi.players[k].username);
        if gi.players[k].active {
            push_char(&mut out, '*');
        } else {
            push_char(&mut out, '-');
        }
        proof {
            lemma_players_push(gi@.players.subrange(0, k as int), gi@.players[k as int]);
            assert(gi@.players.subrange(0, k + 1) =~= gi@.players.subrange(0, k as int).push(
                gi@.players[k as int],
            ));
            assert(out@ =~= header + encode_players_spec(gi@.players.subrange(0, k + 1)));
        }
        k = k + 1;
    }
    proof {
        assert(gi@.players.subrange(0, n as int) =~= gi@.players);
        assert(out@ =~= encode_game_info_spec(gi@));
    }
    out
}

/// Serialize a chat line for the wire.
pub fn encode_chat_message(m: &ChatMessage) -> (r: String)
    ensures
        r@ == encode_chat_spec(m@),
{
    let mut out = String::new();
    push_string_field(&mut out, &m.username);
    push_string_field(&mut out, &m.text);
    proof {
        assert(out@ =~= encode_chat_spec(m@));
    }
    out
}

} // verus!
