//! Amounts of money: decimal numbers as they arrive in a record, and their
//! value in minor units, the ten-thousandths of a unit that accounts count in.

use vstd::prelude::*;
use vstd::string::*;
use std::str::FromStr;
use bigdecimal::BigDecimal;
use bigdecimal::Signed;
use crate::error::TxError;
use vstd::arithmetic::div_mod::lemma_fundamental_div_mod_converse;
use crate::numeral::{
    all_decimal, all_digits, decimal_digits, decimal_text, digit_char, digit_of, digit_str,
    digits_text, digits_value, is_digit, lemma_decimal_digits, lemma_decimal_digits_unique,
    lemma_digit_of, lemma_digits_of_text, lemma_digits_value_bound, lemma_digits_value_concat,
    lemma_pow10_limits, lemma_pow10_positive, lemma_text_of_digits, pow10, prefix_value,
    push_decimal, push_digits, round_digits, round_half_up, scale_up, text_digits, text_value,
};

verus! {

/// A decimal number: `coefficient` divided by ten to the power `scale`, below
/// zero where `negative`.
pub struct AmountView {
    pub negative: bool,
    pub coefficient: nat,
    pub scale: int,
}

impl AmountView {
    /// The number in minor units, rounded half up to a whole one.
    pub open spec fn minor_units(self) -> nat {
        if self.scale <= 4 {
            self.coefficient * pow10((4 - self.scale) as nat)
        } else {
            round_half_up(self.coefficient, pow10((self.scale - 4) as nat))
        }
    }

    /// The number as an account counts it: its minor units, unless it is below
    /// zero or beyond 64 bits.
    pub open spec fn units(self) -> Result<u64, TxError> {
        if self.negative {
            Err(TxError::NegativeAmount)
        } else if self.minor_units() > u64::MAX {
            Err(TxError::InvalidAmount)
        } else {
            Ok(self.minor_units() as u64)
        }
    }
}

/// A decimal number of any size and precision, as read from a record.
#[derive(Debug)]
pub struct Amount {
    negative: bool,
    digits: Vec<u8>,
    scale: i64,
}

impl View for Amount {
    type V = AmountView;

    closed spec fn view(&self) -> AmountView {
        AmountView {
            negative: self.negative,
            coefficient: digits_value(self.digits@),
            scale: self.scale as int,
        }
    }
}

impl Clone for Amount {
    fn clone(&self) -> (r: Amount)
        ensures
            r@ == self@,
    {
        proof {
            use_type_invariant(self);
        }
        let digits = self.digits.clone();
        assert(digits@ =~= self.digits@);
        Amount { negative: self.negative, digits, scale: self.scale }
    }
}

/// What `bigdecimal` reads in a text: nothing where the text is no number, else
/// whether the number is below zero, the decimal digits of its coefficient and
/// its scale.
pub uninterp spec fn decimal_reading(text: Seq<char>) -> Option<(bool, Seq<u8>, int)>;

/// The text holds the mark of an exponent, `e` or `E`.
pub open spec fn has_exponent(text: Seq<char>) -> bool {
    exists|i: int| 0 <= i < text.len() && (text[i] == 'e' || text[i] == 'E')
}

/// The text is digits, a point at index `point`, and digits again, with at
/// least one digit on either side.
pub open spec fn is_plain_decimal(text: Seq<char>, point: int) -> bool {
    &&& 0 < point < text.len() - 1
    &&& text[point] == '.'
    &&& forall|i: int| 0 <= i < text.len() && i != point ==> is_digit(#[trigger] text[i])
}

/// The number that a plain decimal with its point at `point` denotes.
pub open spec fn plain_decimal(text: Seq<char>, point: int) -> AmountView {
    AmountView {
        negative: false,
        coefficient: text_value(text.remove(point)),
        scale: text.len() - 1 - point,
    }
}

/// The decimal number written in `text`. A text with an exponent is refused;
/// any other is read as `bigdecimal` reads it.
pub open spec fn spec_parse(text: Seq<char>) -> Result<AmountView, TxError> {
    if has_exponent(text) {
        Err(TxError::InvalidAmount)
    } else {
        match decimal_reading(text) {
            Some((negative, digits, scale)) => Ok(
                AmountView { negative, coefficient: digits_value(digits), scale },
            ),
            None => Err(TxError::InvalidAmount),
        }
    }
}

/// The outcome of reading an amount, with the amount taken by its view.
pub open spec fn parsed(r: Result<Amount, TxError>) -> Result<AmountView, TxError> {
    match r {
        Ok(a) => Ok(a@),
        Err(e) => Err(e),
    }
}

/// The text of the minor units that a reading comes to, where it comes to any.
pub open spec fn written_back(r: Result<AmountView, TxError>) -> Option<Seq<char>> {
    match r {
        Ok(a) => match a.units() {
            Ok(units) => Some(amount_text(units as nat)),
            Err(_) => None,
        },
        Err(_) => None,
    }
}

/// The digits after the point of an amount's text: those of `n`, below ten
/// thousand, with leading zeros.
pub open spec fn fraction_text(n: nat) -> Seq<char> {
    seq![
        digit_char((n / 1000) as u8),
        digit_char((n / 100 % 10) as u8),
        digit_char((n / 10 % 10) as u8),
        digit_char((n % 10) as u8),
    ]
}

/// The text of `units` minor units: the whole units, a point, and four digits.
pub open spec fn amount_text(units: nat) -> Seq<char> {
    decimal_text(units / 10_000) + seq!['.'] + fraction_text(units % 10_000)
}

/// The text is an amount as it is reported: digits, a point and four digits,
/// with no zero before the first digit of a number of one or more.
pub open spec fn is_amount_text(text: Seq<char>) -> bool {
    &&& text.len() >= 6
    &&& is_plain_decimal(text, text.len() - 5)
    &&& (text.len() == 6 || text[0] != '0')
}

/// The minor units that an amount's text spells: its digits, read as one number.
pub open spec fn amount_text_units(text: Seq<char>) -> nat {
    text_value(text.remove(text.len() - 5))
}

/// Four digits denote their weighted sum.
proof fn lemma_four_digits(digits: Seq<u8>)
    requires
        digits.len() == 4,
    ensures
        digits_value(digits) == 1000 * digits[0] + 100 * digits[1] + 10 * digits[2] + digits[3],
{
    let three = digits.drop_last();
    let two = three.drop_last();
    let one = two.drop_last();
    assert(one.drop_last() =~= Seq::<u8>::empty());
    assert(digits_value(one.drop_last()) == 0);
    assert(digits_value(one) == digits[0]);
    assert(digits_value(two) == 10 * digits_value(one) + digits[1]);
    assert(digits_value(three) == 10 * digits_value(two) + digits[2]);
}

/// The text of an amount spells its minor units with four decimal places, and
/// those minor units are written as that text again.
pub proof fn lemma_text_round_trip(text: Seq<char>)
    requires
        is_amount_text(text),
    ensures
        plain_decimal(text, text.len() - 5).minor_units() == amount_text_units(text),
        amount_text(amount_text_units(text)) == text,
{
    let point = text.len() - 5;
    let whole = text.take(point);
    let fraction = text.skip(point + 1);
    let units = amount_text_units(text);
    assert(text.remove(point) =~= whole + fraction);
    assert(text =~= whole + seq!['.'] + fraction);
    assert(all_digits(whole)) by {
        assert forall|i: int| 0 <= i < whole.len() implies is_digit(whole[i]) by {
            assert(whole[i] == text[i]);
        }
    }
    assert(all_digits(fraction)) by {
        assert forall|i: int| 0 <= i < fraction.len() implies is_digit(fraction[i]) by {
            assert(fraction[i] == text[point + 1 + i]);
        }
    }
    let high = text_digits(whole);
    let low = text_digits(fraction);
    assert(text_digits(whole + fraction) =~= high + low);
    lemma_digits_of_text(whole);
    lemma_digits_of_text(fraction);
    lemma_digits_value_concat(high, low);
    lemma_digits_value_bound(low);
    lemma_pow10_limits();
    assert(units == digits_value(high) * 10_000 + digits_value(low));
    lemma_fundamental_div_mod_converse(
        units as int,
        10_000,
        digits_value(high) as int,
        digits_value(low) as int,
    );
    assert(high[0] == digit_of(whole[0]));
    assert(whole[0] == text[0]);
    lemma_digit_of(whole[0]);
    lemma_decimal_digits_unique(high);
    assert(decimal_text(units / 10_000) == whole);
    lemma_four_digits(low);
    let f = digits_value(low);
    assert(f / 1000 == low[0] && f / 100 % 10 == low[1] && f / 10 % 10 == low[2] && f % 10
        == low[3]);
    assert(fraction_text(f) =~= fraction) by {
        assert(digits_text(low) == fraction);
        assert(forall|i: int| 0 <= i < 4 ==> digits_text(low)[i] == digit_char(low[i]));
    }
    assert(pow10(0) == 1);
    assert(units * 1 == units);
}

/// The text that minor units are written as is the text of an amount, and it
/// spells those minor units.
pub proof fn lemma_amount_text_is_read_back(units: nat)
    ensures
        is_amount_text(amount_text(units)),
        amount_text_units(amount_text(units)) == units,
{
    let whole = decimal_text(units / 10_000);
    let f = units % 10_000;
    let fraction = fraction_text(f);
    let text = amount_text(units);
    let point = text.len() - 5;
    let high = decimal_digits(units / 10_000);
    let low = seq![(f / 1000) as u8, (f / 100 % 10) as u8, (f / 10 % 10) as u8, (f % 10) as u8];
    lemma_decimal_digits(units / 10_000);
    lemma_text_of_digits(high);
    assert(all_decimal(low));
    lemma_text_of_digits(low);
    assert(digits_text(low) =~= fraction);
    assert(point == whole.len());
    assert forall|i: int| 0 <= i < text.len() && i != point implies is_digit(
        #[trigger] text[i],
    ) by {
        if i < point {
            assert(text[i] == whole[i]);
        } else {
            assert(text[i] == fraction[i - point - 1]);
        }
    }
    assert(text.len() == 6 || text[0] != '0') by {
        if text.len() != 6 {
            assert(high.len() > 1);
            assert(units / 10_000 > 0) by {
                if units / 10_000 == 0 {
                    assert(decimal_digits(0) =~= seq![0u8]);
                }
            }
            assert(text[0] == whole[0]);
            assert(whole[0] == digit_char(high[0]));
        }
    }
    assert(text.remove(point) =~= whole + fraction);
    assert(text_digits(whole) == high);
    assert(text_digits(fraction) == low);
    assert(text_digits(whole + fraction) =~= high + low);
    lemma_digits_value_concat(high, low);
    lemma_four_digits(low);
    lemma_pow10_limits();
    assert(digits_value(low) == f);
    assert(digits_value(high) == units / 10_000);
    assert(amount_text_units(text) == (units / 10_000) * 10_000 + f);
}

/// What was read, as plain values.
spec fn reading(r: Option<Amount>) -> Option<(bool, Seq<u8>, int)> {
    match r {
        Some(a) => Some((a.negative, a.digits@, a.scale as int)),
        None => None,
    }
}

/// A number was read, and it is `v`.
spec fn reads(r: Option<Amount>, v: AmountView) -> bool {
    r matches Some(a) && a@ == v
}

/// Calls `BigDecimal::from_str`, and takes the number apart with
/// `BigDecimal::into_bigint_and_exponent`, `BigInt::to_radix_be` and
/// `BigInt::is_negative`. The contract names what they read in a text, and
/// claims three things of it. The digits handed back are decimal digits. A
/// text without an exponent does not make the call panic (with one, the scale
/// may overflow). And digits, a point and digits are read as the number they
/// spell, with as many decimal places as digits follow the point.
#[verifier::external_body]
fn read_decimal(text: &str) -> (r: Option<Amount>)
    requires
        !has_exponent(text@),
    ensures
        reading(r) == decimal_reading(text@),
        r matches Some(a) ==> all_decimal(a.digits@),
        forall|point: int| #[trigger]
            is_plain_decimal(text@, point) ==> reads(r, plain_decimal(text@, point)),
{
    let (number, scale) = BigDecimal::from_str(text).ok()?.into_bigint_and_exponent();
    let (_, digits) = number.to_radix_be(10);
    Some(Amount { negative: number.is_negative(), digits, scale })
}

/// Whether the text holds `e` or `E`.
fn find_exponent(text: &str) -> (r: bool)
    ensures
        r == has_exponent(text@),
{
    let mut found = false;
    for c in it: text.chars()
        invariant
            it.seq() == text@,
            found == exists|i: int| 0 <= i < it.index() && (text@[i] == 'e' || text@[i] == 'E'),
    {
        if c == 'e' || c == 'E' {
            found = true;
        }
    }
    found
}

impl Amount {
    #[verifier::type_invariant]
    spec fn decimal(&self) -> bool {
        all_decimal(self.digits@)
    }

    /// Reads a decimal number. Digits with a point among them are read as the
    /// number they spell; what else counts as a number is for `bigdecimal` to
    /// say, but for exponents, which are refused. The text of an amount that
    /// 64 bits can hold is read as the amount that is written as that text.
    pub fn parse(text: &str) -> (r: Result<Amount, TxError>)
        ensures
            parsed(r) == spec_parse(text@),
            forall|point: int| #[trigger]
                is_plain_decimal(text@, point) ==> parsed(r) == Ok::<AmountView, TxError>(
                    plain_decimal(text@, point),
                ),
            is_amount_text(text@) && amount_text_units(text@) <= u64::MAX ==> written_back(
                parsed(r),
            ) == Some(text@),
    {
        if find_exponent(text) {
            return Err(TxError::InvalidAmount);
        }
        proof {
            assert forall|point: int| #[trigger]
                is_plain_decimal(text@, point) implies !has_exponent(text@) by {
                assert forall|i: int| 0 <= i < text@.len() implies text@[i] != 'e' && text@[i]
                    != 'E' by {
                    if i != point {
                        assert(is_digit(text@[i]));
                    }
                }
            }
        }
        proof {
            if is_amount_text(text@) {
                lemma_text_round_trip(text@);
            }
        }
        match read_decimal(text) {
            Some(a) => Ok(a),
            None => Err(TxError::InvalidAmount),
        }
    }

    /// The amount in minor units, rounded half up. An amount below zero is
    /// refused as negative, one beyond 64 bits as invalid.
    pub fn to_u64(&self) -> (r: Result<u64, TxError>)
        ensures
            r == self@.units(),
    {
        proof {
            use_type_invariant(self);
        }
        if self.negative {
            return Err(TxError::NegativeAmount);
        }
        let found: Option<u64> = if self.scale <= 4 {
            let up: u64 = (4 - self.scale as i128) as u64;
            proof {
                lemma_pow10_positive(up as nat);
                assert(self.digits@.take(self.digits.len() as int) =~= self.digits@);
            }
            match prefix_value(&self.digits, self.digits.len()) {
                Some(c) => scale_up(c, up),
                None => {
                    assert(digits_value(self.digits@) * pow10(up as nat) >= digits_value(
                        self.digits@,
                    )) by (nonlinear_arith)
                        requires
                            pow10(up as nat) > 0,
                    ;
                    None
                },
            }
        } else {
            round_digits(&self.digits, (self.scale - 4) as u64)
        };
        match found {
            Some(v) => Ok(v),
            None => Err(TxError::InvalidAmount),
        }
    }

    /// The amount of `v` minor units.
    pub fn from_u64(v: u64) -> (r: Amount)
        ensures
            r@ == (AmountView { negative: false, coefficient: v as nat, scale: 4 }),
            r@.units() == Ok::<u64, TxError>(v),
    {
        let mut digits: Vec<u8> = Vec::new();
        push_digits(&mut digits, v);
        proof {
            lemma_decimal_digits(v as nat);
            assert(digits@ =~= decimal_digits(v as nat));
            assert(pow10(0) == 1);
            assert(v as nat * 1 == v as nat);
        }
        Amount { negative: false, digits, scale: 4 }
    }

    /// The text of `v` minor units, with four digits after the point.
    pub fn format(v: u64) -> (s: String)
        ensures
            s@ == amount_text(v as nat),
            is_amount_text(s@),
            amount_text_units(s@) == v,
    {
        proof {
            lemma_amount_text_is_read_back(v as nat);
        }
        let mut s = String::new();
        push_decimal(&mut s, v / 10_000);
        proof {
            reveal_strlit(".");
        }
        s.append(".");
        let f: u64 = v % 10_000;
        s.append(digit_str((f / 1000) as u8));
        s.append(digit_str((f / 100 % 10) as u8));
        s.append(digit_str((f / 10 % 10) as u8));
        s.append(digit_str((f % 10) as u8));
        assert(s@ =~= amount_text(v as nat));
        s
    }
}

} // verus!
