//! Decimal numerals: the canonical (no leading zero) decimal text of a
//! number, its uniqueness, and verified rendering and reading.

use vstd::prelude::*;

use crate::text::push_char;

verus! {

/// The digit character for a value below ten.
pub open spec fn digit_char(d: nat) -> char {
    if d == 0 {
        '0'
    } else if d == 1 {
        '1'
    } else if d == 2 {
        '2'
    } else if d == 3 {
        '3'
    } else if d == 4 {
        '4'
    } else if d == 5 {
        '5'
    } else if d == 6 {
        '6'
    } else if d == 7 {
        '7'
    } else if d == 8 {
        '8'
    } else {
        '9'
    }
}

/// The digit value of a character, if it is a decimal digit.
pub open spec fn digit_val(c: char) -> Option<nat> {
    if c == '0' {
        Some(0 as nat)
    } else if c == '1' {
        Some(1 as nat)
    } else if c == '2' {
        Some(2 as nat)
    } else if c == '3' {
        Some(3 as nat)
    } else if c == '4' {
        Some(4 as nat)
    } else if c == '5' {
        Some(5 as nat)
    } else if c == '6' {
        Some(6 as nat)
    } else if c == '7' {
        Some(7 as nat)
    } else if c == '8' {
        Some(8 as nat)
    } else if c == '9' {
        Some(9 as nat)
    } else {
        None
    }
}

/// The canonical decimal numeral of `n`: most significant digit first, no
/// leading zero (zero itself is the single digit `0`).
pub open spec fn dec_seq(n: nat) -> Seq<char>
    decreases n,
{
    if n < 10 {
        seq![digit_char(n)]
    } else {
        dec_seq(n / 10).push(digit_char(n % 10))
    }
}

/// Every character of a numeral is a digit.
pub proof fn lemma_dec_all_digits(n: nat)
    ensures
        forall|i: int| 0 <= i < dec_seq(n).len() ==> digit_val(#[trigger] dec_seq(n)[i]) is Some,
    decreases n,
{
    if n >= 10 {
        lemma_dec_all_digits(n / 10);
    }
}

/// A numeral is never empty.
pub proof fn lemma_dec_len(n: nat)
    ensures
        dec_seq(n).len() >= 1,
        n >= 10 ==> dec_seq(n).len() >= 2,
    decreases n,
{
    if n >= 10 {
        lemma_dec_len(n / 10);
    }
}

/// Two numbers with the same numeral are equal.
pub proof fn lemma_dec_injective(m: nat, n: nat)
    requires
        dec_seq(m) == dec_seq(n),
    ensures
        m == n,
    decreases m + n,
{
    lemma_dec_len(m);
    lemma_dec_len(n);
    if m < 10 && n < 10 {
        assert(dec_seq(m)[0] == digit_char(m));
        assert(dec_seq(n)[0] == digit_char(n));
    } else if m >= 10 && n >= 10 {
        assert(dec_seq(m).last() == digit_char(m % 10));
        assert(dec_seq(n).last() == digit_char(n % 10));
        assert(dec_seq(m).drop_last() =~= dec_seq(m / 10));
        assert(dec_seq(n).drop_last() =~= dec_seq(n / 10));
        lemma_dec_injective(m / 10, n / 10);
    } else {
        assert(dec_seq(m).len() != dec_seq(n).len());
    }
}

/// Appending one more digit extends the numeral, as long as the number so
/// far is positive (a leading zero never arises this way).
pub proof fn lemma_dec_step(acc: nat, d: nat)
    requires
        acc >= 1,
        d < 10,
    ensures
        dec_seq(acc * 10 + d) =~= dec_seq(acc).push(digit_char(d)),
{
    let x = acc * 10 + d;
    assert(x >= 10) by (nonlinear_arith)
        requires
            acc >= 1,
            d < 10,
            x == acc * 10 + d,
    ;
    assert(x / 10 == acc && x % 10 == d) by (nonlinear_arith)
        requires
            d < 10,
            x == acc * 10 + d,
    ;
}

/// A numeral of ten or more never starts with a zero.
pub proof fn lemma_dec_no_leading_zero(n: nat)
    requires
        n >= 10,
    ensures
        dec_seq(n)[0] != '0',
    decreases n,
{
    lemma_dec_len(n / 10);
    assert(dec_seq(n)[0] == dec_seq(n / 10)[0]);
    if n / 10 >= 10 {
        lemma_dec_no_leading_zero(n / 10);
    } else {
        assert(n / 10 >= 1);
        assert(dec_seq(n / 10)[0] == digit_char((n / 10) as nat));
    }
}

/// Reading a digit back gives the digit character it came from.
pub proof fn lemma_digit_roundtrip(c: char)
    ensures
        (match digit_val(c) {
            Some(d) => c == digit_char(d),
            None => true,
        }),
{
}

/// If one numeral is a prefix of another, its number is no larger.
pub proof fn lemma_dec_prefix_le(a: nat, b: nat, t: Seq<char>)
    requires
        dec_seq(a) + t == dec_seq(b),
    ensures
        a <= b,
    decreases t.len(),
{
    lemma_dec_len(a);
    lemma_dec_len(b);
    if t.len() == 0 {
        assert(dec_seq(a) =~= dec_seq(b));
        lemma_dec_injective(a, b);
    } else {
        assert(dec_seq(b).len() >= 2);
        assert(b >= 10);
        assert(dec_seq(b) == dec_seq(b / 10).push(digit_char(b % 10)));
        assert(dec_seq(b).drop_last() =~= dec_seq(b / 10));
        assert((dec_seq(a) + t).drop_last() =~= dec_seq(a) + t.drop_last());
        assert(dec_seq(a) + t.drop_last() =~= dec_seq(b / 10));
        lemma_dec_prefix_le(a, b / 10, t.drop_last());
    }
}

/// Append the decimal numeral of `n` to `out`.
pub fn push_dec(out: &mut String, n: usize)
    ensures
        final(out)@ == old(out)@ + dec_seq(n as nat),
    decreases n,
{
    if n < 10 {
        let c = digit_to_char(n);
        push_char(out, c);
        proof {
            assert(out@ =~= old(out)@ + dec_seq(n as nat));
        }
    } else {
        push_dec(out, n / 10);
        let c = digit_to_char(n % 10);
        push_char(out, c);
        proof {
            assert(out@ =~= old(out)@ + dec_seq(n as nat));
        }
    }
}

/// The decimal numeral of `n` on its own.
pub fn dec_string(n: usize) -> (r: String)
    ensures
        r@ == dec_seq(n as nat),
{
    let mut out = String::new();
    push_dec(&mut out, n);
    proof {
        assert(out@ =~= dec_seq(n as nat));
    }
    out
}

/// The digit character of a value below ten.
fn digit_to_char(d: usize) -> (c: char)
    requires
        d < 10,
    ensures
        c == digit_char(d as nat),
{
    match d {
        0 => '0',
        1 => '1',
        2 => '2',
        3 => '3',
        4 => '4',
        5 => '5',
        6 => '6',
        7 => '7',
        8 => '8',
        _ => '9',
    }
}

/// The digit value of a character, if any.
pub(crate) fn char_to_digit(c: char) -> (r: Option<usize>)
    ensures
        (match r {
            Some(d) => d < 10 && digit_val(c) == Some(d as nat),
            None => digit_val(c) is None,
        }),
{
    match c {
        '0' => Some(0),
        '1' => Some(1),
        '2' => Some(2),
        '3' => Some(3),
        '4' => Some(4),
        '5' => Some(5),
        '6' => Some(6),
        '7' => Some(7),
        '8' => Some(8),
        '9' => Some(9),
        _ => None,
    }
}

} // verus!
