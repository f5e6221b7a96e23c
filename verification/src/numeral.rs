//! Decimal digits: the numbers they denote and the text they are written as.

use vstd::prelude::*;
use vstd::string::*;
use vstd::arithmetic::div_mod::{
    lemma_basic_div, lemma_fundamental_div_mod_converse, lemma_small_mod,
};

verus! {

/// Ten to the power `e`.
pub open spec fn pow10(e: nat) -> nat
    decreases e,
{
    if e == 0 {
        1
    } else {
        10 * pow10((e - 1) as nat)
    }
}

/// The number denoted by decimal digits, most significant digit first.
pub open spec fn digits_value(digits: Seq<u8>) -> nat
    decreases digits.len(),
{
    if digits.len() == 0 {
        0
    } else {
        10 * digits_value(digits.drop_last()) + digits.last() as nat
    }
}

/// `n` counted in whole `unit`s, to the nearest one; a half counts as a whole.
pub open spec fn round_half_up(n: nat, unit: nat) -> nat {
    n / unit + if 2 * (n % unit) >= unit {
        1nat
    } else {
        0nat
    }
}

/// Every element is a decimal digit, that is, below ten.
pub open spec fn all_decimal(digits: Seq<u8>) -> bool {
    forall|i: int| 0 <= i < digits.len() ==> digits[i] < 10
}

/// The decimal digits of `n`, most significant first, without leading zeros
/// (zero is the single digit 0).
pub open spec fn decimal_digits(n: nat) -> Seq<u8>
    decreases n,
{
    if n < 10 {
        seq![n as u8]
    } else {
        decimal_digits(n / 10).push((n % 10) as u8)
    }
}

/// `c` is one of the characters `0` to `9`.
pub open spec fn is_digit(c: char) -> bool {
    '0' <= c && c <= '9'
}

/// The digit that the character `c` stands for.
pub open spec fn digit_of(c: char) -> u8 {
    (c as u32 - '0' as u32) as u8
}

/// The character that stands for the digit `d`.
pub open spec fn digit_char(d: u8) -> char {
    if d == 0 {
        '0'
    } else if d == 1 {
        '1'
    } else if d == 2 {
        '2'
    } else if d == 3 {
        '3'
    } else if d == 4 {
        '4'
    } else if d == 5 {
        '5'
    } else if d == 6 {
        '6'
    } else if d == 7 {
        '7'
    } else if d == 8 {
        '8'
    } else {
        '9'
    }
}

/// Every character is a decimal digit.
pub open spec fn all_digits(text: Seq<char>) -> bool {
    forall|i: int| 0 <= i < text.len() ==> is_digit(text[i])
}

/// The digits that a run of digit characters stands for.
pub open spec fn text_digits(text: Seq<char>) -> Seq<u8> {
    Seq::new(text.len(), |i: int| digit_of(text[i]))
}

/// The characters that a run of digits is written as.
pub open spec fn digits_text(digits: Seq<u8>) -> Seq<char> {
    Seq::new(digits.len(), |i: int| digit_char(digits[i]))
}

/// The number that a run of digit characters denotes.
pub open spec fn text_value(text: Seq<char>) -> nat {
    digits_value(text_digits(text))
}

/// `n` written in decimal, without leading zeros.
pub open spec fn decimal_text(n: nat) -> Seq<char> {
    digits_text(decimal_digits(n))
}

/// A power of ten is above zero.
pub proof fn lemma_pow10_positive(e: nat)
    ensures
        pow10(e) > 0,
    decreases e,
{
    if e > 0 {
        lemma_pow10_positive((e - 1) as nat);
    }
}

/// A higher power of ten is no smaller.
pub proof fn lemma_pow10_monotonic(a: nat, b: nat)
    requires
        a <= b,
    ensures
        pow10(a) <= pow10(b),
    decreases b,
{
    if a < b {
        lemma_pow10_monotonic(a, (b - 1) as nat);
        lemma_pow10_positive((b - 1) as nat);
    }
}

/// Nineteen decimal places fit in 64 bits, twenty do not.
pub proof fn lemma_pow10_limits()
    ensures
        pow10(4) == 10_000,
        pow10(19) == 10_000_000_000_000_000_000,
        pow10(19) <= u64::MAX,
        pow10(20) > u64::MAX,
{
    reveal_with_fuel(pow10, 21);
}

/// Digits that are all below ten denote a number below ten to their count.
pub proof fn lemma_digits_value_bound(digits: Seq<u8>)
    requires
        all_decimal(digits),
    ensures
        digits_value(digits) < pow10(digits.len()),
    decreases digits.len(),
{
    if digits.len() > 0 {
        lemma_digits_value_bound(digits.drop_last());
    }
}

/// Appending digits shifts the number on the left and adds the number on the right.
pub proof fn lemma_digits_value_concat(a: Seq<u8>, b: Seq<u8>)
    ensures
        digits_value(a + b) == digits_value(a) * pow10(b.len()) + digits_value(b),
    decreases b.len(),
{
    if b.len() == 0 {
        assert(a + b =~= a);
        assert(digits_value(a) * 1 == digits_value(a));
    } else {
        let b0 = b.drop_last();
        assert((a + b).drop_last() =~= a + b0);
        assert((a + b).last() == b.last());
        lemma_digits_value_concat(a, b0);
        let x = digits_value(a);
        let p = pow10(b0.len());
        assert(pow10(b.len()) == 10 * p);
        assert(10 * (x * p + digits_value(b0)) == x * (10 * p) + 10 * digits_value(b0))
            by (nonlinear_arith);
    }
}

/// A longer prefix never denotes a smaller number.
pub proof fn lemma_digits_value_prefix(digits: Seq<u8>, i: int, j: int)
    requires
        0 <= i <= j <= digits.len(),
    ensures
        digits_value(digits.take(i)) <= digits_value(digits.take(j)),
    decreases j - i,
{
    if i < j {
        lemma_digits_value_prefix(digits, i, j - 1);
        assert(digits.take(j).drop_last() =~= digits.take(j - 1));
    }
}

/// The decimal digits of a number are digits, and denote that number.
pub proof fn lemma_decimal_digits(n: nat)
    ensures
        all_decimal(decimal_digits(n)),
        digits_value(decimal_digits(n)) == n,
        decimal_digits(n).len() >= 1,
        n > 0 ==> decimal_digits(n)[0] != 0,
    decreases n,
{
    if n < 10 {
        let s = seq![n as u8];
        assert(s.drop_last() =~= Seq::<u8>::empty());
        assert(digits_value(s.drop_last()) == 0);
    } else {
        lemma_decimal_digits(n / 10);
        let s = decimal_digits(n);
        assert(s.drop_last() =~= decimal_digits(n / 10));
        assert(s[0] == decimal_digits(n / 10)[0]);
    }
}

/// Digits without a leading zero are the decimal digits of the number they denote.
pub proof fn lemma_decimal_digits_unique(digits: Seq<u8>)
    requires
        all_decimal(digits),
        digits.len() >= 1,
        digits.len() == 1 || digits[0] != 0,
    ensures
        decimal_digits(digits_value(digits)) == digits,
    decreases digits.len(),
{
    let n = digits_value(digits);
    let head = digits.drop_last();
    if digits.len() == 1 {
        assert(head =~= Seq::<u8>::empty());
        assert(digits_value(head) == 0);
        assert(n == digits[0]);
        assert(decimal_digits(n) =~= digits);
    } else {
        assert(head[0] == digits[0]);
        lemma_decimal_digits_unique(head);
        lemma_leading_digit(head);
        assert(digits_value(head) >= 1);
        assert(n / 10 == digits_value(head) && n % 10 == digits.last() as nat);
        assert(decimal_digits(n) =~= digits);
    }
}

/// A number whose first digit is not zero is at least one.
pub proof fn lemma_leading_digit(digits: Seq<u8>)
    requires
        digits.len() >= 1,
        digits[0] != 0,
    ensures
        digits_value(digits) >= 1,
    decreases digits.len(),
{
    if digits.len() > 1 {
        assert(digits.drop_last()[0] == digits[0]);
        lemma_leading_digit(digits.drop_last());
    }
}

/// Writing digits as characters and reading them back gives the digits.
pub proof fn lemma_text_of_digits(digits: Seq<u8>)
    requires
        all_decimal(digits),
    ensures
        all_digits(digits_text(digits)),
        text_digits(digits_text(digits)) == digits,
{
    let text = digits_text(digits);
    assert forall|i: int| 0 <= i < digits.len() implies is_digit(text[i]) && digit_of(text[i])
        == digits[i] by {
        lemma_digit_char(digits[i]);
    }
    assert(text_digits(text) =~= digits);
}

/// Reading digit characters and writing them back gives the characters.
pub proof fn lemma_digits_of_text(text: Seq<char>)
    requires
        all_digits(text),
    ensures
        all_decimal(text_digits(text)),
        digits_text(text_digits(text)) == text,
{
    let digits = text_digits(text);
    assert forall|i: int| 0 <= i < text.len() implies digits[i] < 10 && digit_char(digits[i])
        == text[i] by {
        lemma_digit_of(text[i]);
    }
    assert(digits_text(digits) =~= text);
}

/// The character of a digit is a digit character, and stands for that digit.
pub proof fn lemma_digit_char(d: u8)
    requires
        d < 10,
    ensures
        is_digit(digit_char(d)),
        digit_of(digit_char(d)) == d,
{
}

/// A digit character stands for a digit, which is written as that character.
pub proof fn lemma_digit_of(c: char)
    requires
        is_digit(c),
    ensures
        digit_of(c) < 10,
        digit_char(digit_of(c)) == c,
{
    let d = digit_of(c);
    assert(c as u32 == '0' as u32 + d as u32);
    assert(digit_char(d) as u32 == '0' as u32 + d as u32);
}

/// The one-character text of a digit.
pub(crate) fn digit_str(d: u8) -> (s: &'static str)
    requires
        d < 10,
    ensures
        s@ == seq![digit_char(d)],
{
    proof {
        reveal_strlit("0");
        reveal_strlit("1");
        reveal_strlit("2");
        reveal_strlit("3");
        reveal_strlit("4");
        reveal_strlit("5");
        reveal_strlit("6");
        reveal_strlit("7");
        reveal_strlit("8");
        reveal_strlit("9");
    }
    let s = match d {
        0 => "0",
        1 => "1",
        2 => "2",
        3 => "3",
        4 => "4",
        5 => "5",
        6 => "6",
        7 => "7",
        8 => "8",
        _ => "9",
    };
    assert(s@ =~= seq![digit_char(d)]);
    s
}

/// Appends `v`, written in decimal, to `out`.
pub(crate) fn push_decimal(out: &mut String, v: u64)
    ensures
        final(out)@ == old(out)@ + decimal_text(v as nat),
    decreases v,
{
    if v >= 10 {
        push_decimal(out, v / 10);
    }
    out.append(digit_str((v % 10) as u8));
    proof {
        let n = v as nat;
        if n < 10 {
            assert(decimal_text(n) =~= seq![digit_char(n as u8)]);
        } else {
            assert(decimal_text(n) =~= decimal_text(n / 10) + seq![digit_char((n % 10) as u8)]);
        }
    }
}

/// Appends the decimal digits of `v` to `out`.
pub(crate) fn push_digits(out: &mut Vec<u8>, v: u64)
    ensures
        final(out)@ == old(out)@ + decimal_digits(v as nat),
    decreases v,
{
    if v >= 10 {
        push_digits(out, v / 10);
    }
    out.push((v % 10) as u8);
    proof {
        let n = v as nat;
        if n < 10 {
            assert(final(out)@ =~= old(out)@ + decimal_digits(n));
        } else {
            assert(final(out)@ =~= old(out)@ + decimal_digits(n));
        }
    }
}

/// The number denoted by the first `len` digits, where it fits in 64 bits.
pub(crate) fn prefix_value(digits: &Vec<u8>, len: usize) -> (r: Option<u64>)
    requires
        len <= digits.len(),
        all_decimal(digits@),
    ensures
        match r {
            Some(v) => v == digits_value(digits@.take(len as int)),
            None => digits_value(digits@.take(len as int)) > u64::MAX,
        },
{
    let mut acc: u64 = 0;
    let mut i: usize = 0;
    assert(digits@.take(0) =~= Seq::<u8>::empty());
    while i < len
        invariant
            i <= len <= digits.len(),
            all_decimal(digits@),
            acc == digits_value(digits@.take(i as int)),
        decreases len - i,
    {
        let d: u8 = digits[i];
        proof {
            assert(digits@.take(i + 1).drop_last() =~= digits@.take(i as int));
            assert(digits@.take(i + 1).last() == d);
            lemma_digits_value_prefix(digits@, i + 1, len as int);
        }
        if acc > (u64::MAX - d as u64) / 10 {
            return None;
        }
        acc = acc * 10 + d as u64;
        i = i + 1;
    }
    Some(acc)
}

/// `c` times ten to the power `e`, where it fits in 64 bits.
pub(crate) fn scale_up(c: u64, e: u64) -> (r: Option<u64>)
    ensures
        match r {
            Some(v) => v == c * pow10(e as nat),
            None => c * pow10(e as nat) > u64::MAX,
        },
{
    if c == 0 {
        assert(0 * pow10(e as nat) == 0);
        return Some(0);
    }
    let mut acc: u64 = c;
    let mut i: u64 = 0;
    assert(c * pow10(0) == c) by {
        assert(pow10(0) == 1);
    }
    while i < e
        invariant
            i <= e,
            c >= 1,
            acc == c * pow10(i as nat),
        decreases e - i,
    {
        proof {
            let p = pow10(i as nat);
            let q = pow10((i + 1) as nat);
            let full = pow10(e as nat);
            assert(q == 10 * p);
            lemma_pow10_monotonic((i + 1) as nat, e as nat);
            assert(c * q == 10 * (c * p)) by (nonlinear_arith)
                requires
                    q == 10 * p,
            ;
            assert(c * q <= c * full) by (nonlinear_arith)
                requires
                    q <= full,
                    c >= 1,
            ;
        }
        if acc > u64::MAX / 10 {
            return None;
        }
        acc = acc * 10;
        i = i + 1;
    }
    Some(acc)
}

/// The number that the digits denote with the last `drop` of them rounded away,
/// half up, where it fits in 64 bits.
pub(crate) fn round_digits(digits: &Vec<u8>, drop: u64) -> (r: Option<u64>)
    requires
        all_decimal(digits@),
        drop >= 1,
    ensures
        match r {
            Some(v) => v == round_half_up(digits_value(digits@), pow10(drop as nat)),
            None => round_half_up(digits_value(digits@), pow10(drop as nat)) > u64::MAX,
        },
{
    let n: usize = digits.len();
    let ghost c = digits_value(digits@);
    let ghost unit = pow10(drop as nat);
    let ghost tenth = pow10((drop - 1) as nat);
    proof {
        lemma_pow10_positive((drop - 1) as nat);
        assert(unit == 10 * tenth);
    }
    if drop > n as u64 {
        proof {
            lemma_digits_value_bound(digits@);
            lemma_pow10_monotonic(n as nat, (drop - 1) as nat);
            lemma_basic_div(c as int, unit as int);
            lemma_small_mod(c, unit);
        }
        return Some(0);
    }
    let keep: usize = n - drop as usize;
    let first: u8 = digits[keep];
    let whole: Option<u64> = prefix_value(digits, keep);
    proof {
        let prefix = digits@.take(keep as int);
        let suffix = digits@.skip(keep as int);
        let rest = suffix.skip(1);
        assert(digits@ =~= prefix + suffix);
        assert(suffix =~= seq![first] + rest);
        lemma_digits_value_concat(prefix, suffix);
        lemma_digits_value_concat(seq![first], rest);
        lemma_digits_value_bound(suffix);
        lemma_digits_value_bound(rest);
        assert(digits_value(seq![first]) == first) by {
            assert(seq![first].drop_last() =~= Seq::<u8>::empty());
            assert(digits_value(seq![first].drop_last()) == 0);
        }
        let low = digits_value(suffix);
        assert(low == first * tenth + digits_value(rest));
        assert(c == digits_value(prefix) * unit + low);
        lemma_fundamental_div_mod_converse(
            c as int,
            unit as int,
            digits_value(prefix) as int,
            low as int,
        );
        assert(first >= 5 ==> first * tenth >= 5 * tenth) by (nonlinear_arith)
            requires
                tenth > 0,
        ;
        assert(first <= 4 ==> first * tenth <= 4 * tenth) by (nonlinear_arith)
            requires
                tenth > 0,
        ;
        assert((2 * (c % unit) >= unit) == (first >= 5));
    }
    match whole {
        None => None,
        Some(q) => {
            if first >= 5 {
                if q == u64::MAX {
                    None
                } else {
                    Some(q + 1)
                }
            } else {
                Some(q)
            }
        },
    }
}

} // verus!
