//! Decimal numbers as the exchange writes them, and their amounts in wei.

use std::str::FromStr;

use vstd::prelude::*;

use crate::text::{all_digits, decimal_text, digits_value, law_decimal_text};

verus! {

/// Magnitudes are below this bound, two to the power of ninety-six.
pub const MAGNITUDE_LIMIT: u128 = 0x1_0000_0000_0000_0000_0000_0000;

/// The largest number of decimal places.
pub const MAX_SCALE: u32 = 28;

/// How many wei make one unit.
pub const WEI: u128 = 1_000_000_000_000_000_000;

pub open spec fn pow10(n: nat) -> nat
    decreases n,
{
    if n == 0 {
        1
    } else {
        10 * pow10((n - 1) as nat)
    }
}

/// A decimal number: a sign, and a magnitude that counts units of the last of
/// `scale` decimal places.
#[derive(Clone, Copy, Debug)]
pub struct Amount {
    pub negative: bool,
    pub magnitude: u128,
    pub scale: u32,
}

impl Amount {
    pub open spec fn wf(self) -> bool {
        &&& self.magnitude < MAGNITUDE_LIMIT
        &&& self.scale <= MAX_SCALE
    }

    /// The number in units of the smallest decimal place: two amounts are the
    /// same number where their keys are the same.
    pub open spec fn key(self) -> int {
        let units = self.magnitude * pow10((MAX_SCALE - self.scale) as nat);
        if self.negative {
            -units
        } else {
            units as int
        }
    }

    /// Sign, magnitude and scale.
    pub open spec fn parts(self) -> (bool, nat, nat) {
        (self.negative, self.magnitude as nat, self.scale as nat)
    }
}

/// What `rust_decimal::Decimal::from_str` reads from a text: sign, magnitude
/// and scale, or nothing.
pub uninterp spec fn decimal_value(s: Seq<char>) -> Option<(bool, nat, nat)>;

/// What a plain numeral denotes: at most one `-`, one or more digits, and then
/// at most one point, followed by digits; twenty-eight digits at most.
pub open spec fn numeral_value(s: Seq<char>) -> Option<(bool, nat, nat)> {
    let negative = s.len() > 0 && s[0] == '-';
    let body = if negative {
        s.skip(1)
    } else {
        s
    };
    let point = if body.contains('.') {
        body.index_of_first('.')->0
    } else {
        body.len() as int
    };
    let whole = body.take(point);
    let places = if point < body.len() {
        body.skip(point + 1)
    } else {
        Seq::empty()
    };
    let value = digits_value(whole + places);
    if whole.len() > 0 && all_digits(whole) && all_digits(places) && whole.len() + places.len()
        <= 28 {
        Some((negative && value > 0, value, places.len()))
    } else {
        None
    }
}

/// `rust_decimal::Decimal::from_str`: reads a decimal number. The result is
/// named `decimal_value`; its magnitude has ninety-six bits and its scale is at
/// most 28. Of a plain numeral it reads the digits as they stand, with as many
/// places as stand after the point, and gives zero no sign.
#[verifier::external_body]
pub(crate) fn read_amount(s: &str) -> (r: Option<Amount>)
    ensures
        match r {
            Some(a) => a.wf() && decimal_value(s@) == Some(a.parts()),
            None => decimal_value(s@) is None,
        },
        numeral_value(s@) is Some ==> r is Some && r->0.parts() == numeral_value(s@)->0,
{
    match rust_decimal::Decimal::from_str(s) {
        Ok(d) => Some(
            Amount {
                negative: d.is_sign_negative(),
                magnitude: d.mantissa().unsigned_abs(),
                scale: d.scale(),
            },
        ),
        Err(_) => None,
    }
}

/// The comparison `<` of `rust_decimal::Decimal`: compares the numbers that
/// two amounts stand for, whatever their scales and the sign of a zero.
#[verifier::external_body]
pub(crate) fn amount_less(a: Amount, b: Amount) -> (r: bool)
    requires
        a.wf(),
        b.wf(),
    ensures
        r == (a.key() < b.key()),
{
    let mut x = rust_decimal::Decimal::from_i128_with_scale(a.magnitude as i128, a.scale);
    x.set_sign_negative(a.negative);
    let mut y = rust_decimal::Decimal::from_i128_with_scale(b.magnitude as i128, b.scale);
    y.set_sign_negative(b.negative);
    x < y
}

/// Whether an amount times an integer has a magnitude below the limit when it
/// is cut to an integer.
pub open spec fn product_fits(a: Amount, factor: nat) -> bool {
    a.magnitude * factor < MAGNITUDE_LIMIT * pow10(a.scale as nat)
}

/// `rust_decimal::Decimal::checked_mul`, where the second operand is a power of
/// ten: the product is exact, so its value is that of the first operand times
/// the factor, and there is none where its integer part needs more than
/// ninety-six bits. A product of zero has no sign.
#[verifier::external_body]
pub(crate) fn multiply(a: Amount, factor: u128) -> (r: Option<Amount>)
    requires
        a.wf(),
        exists|n: nat| n <= MAX_SCALE && factor == #[trigger] pow10(n),
    ensures
        match r {
            Some(p) => {
                &&& p.wf()
                &&& product_fits(a, factor as nat)
                &&& p.magnitude * pow10(a.scale as nat) == a.magnitude * factor * pow10(
                    p.scale as nat,
                )
                &&& p.negative == (a.negative && a.magnitude > 0)
            },
            None => !product_fits(a, factor as nat),
        },
{
    let mut x = rust_decimal::Decimal::from_i128_with_scale(a.magnitude as i128, a.scale);
    x.set_sign_negative(a.negative);
    match x.checked_mul(rust_decimal::Decimal::from_i128_with_scale(factor as i128, 0)) {
        Some(d) => Some(
            Amount {
                negative: d.is_sign_negative(),
                magnitude: d.mantissa().unsigned_abs(),
                scale: d.scale(),
            },
        ),
        None => None,
    }
}

/// `rust_decimal::Decimal::trunc`: drops the decimal places and keeps the sign.
#[verifier::external_body]
pub(crate) fn truncate(a: Amount) -> (r: Amount)
    requires
        a.wf(),
    ensures
        r.negative == a.negative,
        r.magnitude == a.magnitude as nat / pow10(a.scale as nat),
        r.scale == 0,
{
    let mut x = rust_decimal::Decimal::from_i128_with_scale(a.magnitude as i128, a.scale);
    x.set_sign_negative(a.negative);
    let d = x.trunc();
    Amount {
        negative: d.is_sign_negative(),
        magnitude: d.mantissa().unsigned_abs(),
        scale: d.scale(),
    }
}

/// A sign where there is one, and a number in decimal.
pub open spec fn signed_text(negative: bool, magnitude: nat) -> Seq<char> {
    if negative {
        seq!['-'] + decimal_text(magnitude)
    } else {
        decimal_text(magnitude)
    }
}

/// `to_string` of a `rust_decimal::Decimal` without decimal places: its digits,
/// after a `-` where the sign is negative, a negative zero included.
#[verifier::external_body]
pub(crate) fn integer_string(a: Amount) -> (r: String)
    requires
        a.wf(),
        a.scale == 0,
    ensures
        r@ == signed_text(a.negative, a.magnitude as nat),
{
    let mut x = rust_decimal::Decimal::from_i128_with_scale(a.magnitude as i128, a.scale);
    x.set_sign_negative(a.negative);
    x.to_string()
}

// ---------------------------------------------------------------------------
// Wei
// ---------------------------------------------------------------------------

/// Whether the amount in wei of a number can be computed.
pub open spec fn wei_fits(parts: (bool, nat, nat)) -> bool {
    parts.1 * WEI < MAGNITUDE_LIMIT * pow10(parts.2)
}

/// A number of units in whole wei, cut towards zero. A negative number keeps
/// its sign, also where less than one wei is left.
pub open spec fn wei_text(parts: (bool, nat, nat)) -> Seq<char> {
    signed_text(parts.0 && parts.1 > 0, parts.1 * WEI as nat / pow10(parts.2))
}

pub proof fn lemma_pow10_pos(n: nat)
    ensures
        pow10(n) > 0,
    decreases n,
{
    if n > 0 {
        lemma_pow10_pos((n - 1) as nat);
    }
}

proof fn lemma_wei_is_pow10()
    ensures
        WEI == pow10(18),
{
    reveal_with_fuel(pow10, 19);
}

/// Equal fractions have equal integer parts.
proof fn lemma_same_quotient(p: nat, b: nat, x: nat, a: nat)
    requires
        a > 0,
        b > 0,
        p * a == x * b,
    ensures
        p / b == x / a,
{
    let q = p / b;
    assert(q * b <= p < (q + 1) * b) by (nonlinear_arith)
        requires
            b > 0,
            q == p / b,
    ;
    assert(q * a <= x) by (nonlinear_arith)
        requires
            q * b <= p,
            p * a == x * b,
            a > 0,
            b > 0,
    ;
    assert(x < (q + 1) * a) by (nonlinear_arith)
        requires
            p < (q + 1) * b,
            p * a == x * b,
            a > 0,
            b > 0,
    ;
    assert(x / a == q) by (nonlinear_arith)
        requires
            q * a <= x,
            x < (q + 1) * a,
            a > 0,
    ;
}

/// The amount in wei of a number, in decimal; `None` where it does not fit.
pub fn amount_to_wei(a: Amount) -> (r: Option<String>)
    requires
        a.wf(),
    ensures
        match r {
            Some(s) => wei_fits(a.parts()) && s@ == wei_text(a.parts()),
            None => !wei_fits(a.parts()),
        },
{
    proof {
        lemma_wei_is_pow10();
    }
    match multiply(a, WEI) {
        None => None,
        Some(p) => {
            let t = truncate(p);
            proof {
                lemma_pow10_pos(a.scale as nat);
                lemma_pow10_pos(p.scale as nat);
                lemma_same_quotient(
                    p.magnitude as nat,
                    pow10(p.scale as nat),
                    (a.magnitude * WEI) as nat,
                    pow10(a.scale as nat),
                );
                assert(t.magnitude <= p.magnitude) by (nonlinear_arith)
                    requires
                        t.magnitude == p.magnitude as nat / pow10(p.scale as nat),
                        pow10(p.scale as nat) > 0,
                ;
            }
            Some(integer_string(t))
        },
    }
}

/// Why a text has no amount in wei.
#[derive(Clone, Copy, Debug, PartialEq, Eq, Structural)]
pub enum WeiError {
    NotANumber,
    TooLarge,
}

/// The amount in wei of the number that a text denotes.
pub fn wei_of_text(s: &str) -> (r: Result<String, WeiError>)
    ensures
        match r {
            Ok(w) => decimal_value(s@) matches Some(v) && wei_fits(v) && w@ == wei_text(v),
            Err(WeiError::NotANumber) => decimal_value(s@) is None,
            Err(WeiError::TooLarge) => decimal_value(s@) matches Some(v) && !wei_fits(v),
        },
        numeral_value(s@) is Some ==> decimal_value(s@) == numeral_value(s@),
{
    match read_amount(s) {
        None => Err(WeiError::NotANumber),
        Some(a) => match amount_to_wei(a) {
            Some(w) => Ok(w),
            None => Err(WeiError::TooLarge),
        },
    }
}

/// The number that a text denotes, or zero where it denotes none.
pub open spec fn value_or_zero(s: Seq<char>) -> (bool, nat, nat) {
    match decimal_value(s) {
        Some(v) => v,
        None => (false, 0, 0),
    }
}

/// The amount that stands for a text: the number that it denotes, or zero where
/// it denotes none.
fn amount_or_zero(s: &str) -> (r: Amount)
    ensures
        r.wf(),
        r.parts() == value_or_zero(s@),
        numeral_value(s@) is Some ==> decimal_value(s@) == numeral_value(s@),
{
    match read_amount(s) {
        Some(a) => a,
        None => Amount { negative: false, magnitude: 0, scale: 0 },
    }
}

/// Whether the amount in wei of a text can be computed, a text that denotes no
/// number counting as zero.
pub fn has_wei(s: &str) -> (r: bool)
    ensures
        r == wei_fits(value_or_zero(s@)),
        numeral_value(s@) is Some ==> decimal_value(s@) == numeral_value(s@),
{
    proof {
        lemma_wei_is_pow10();
    }
    multiply(amount_or_zero(s), WEI).is_some()
}

/// The amount in wei of the number that a text denotes, a text that denotes
/// none counting as zero.
pub fn to_wei_string(s: &str) -> (r: String)
    requires
        wei_fits(value_or_zero(s@)),
    ensures
        r@ == wei_text(value_or_zero(s@)),
        numeral_value(s@) is Some ==> decimal_value(s@) == numeral_value(s@),
{
    amount_to_wei(amount_or_zero(s)).unwrap()
}

/// The amount in wei of the number that a text denotes, a text that denotes
/// none counting as zero; `None` where the amount does not fit.
pub fn try_to_wei_string(s: &str) -> (r: Option<String>)
    ensures
        match r {
            Some(w) => wei_fits(value_or_zero(s@)) && w@ == wei_text(value_or_zero(s@)),
            None => !wei_fits(value_or_zero(s@)),
        },
        numeral_value(s@) is Some ==> decimal_value(s@) == numeral_value(s@),
{
    if has_wei(s) {
        Some(to_wei_string(s))
    } else {
        None
    }
}

pub proof fn lemma_pow10_sum(a: nat, b: nat)
    ensures
        pow10(a + b) == pow10(a) * pow10(b),
    decreases a,
{
    if a > 0 {
        lemma_pow10_sum((a - 1) as nat, b);
        assert((a + b - 1) as nat == (a - 1) as nat + b);
        assert(10 * (pow10((a - 1) as nat) * pow10(b)) == (10 * pow10((a - 1) as nat)) * pow10(b))
            by (nonlinear_arith);
    } else {
        assert(1 * pow10(b) == pow10(b));
    }
}

/// A number with no more than eighteen decimal places loses nothing in wei: its
/// digits are followed by a zero for each place that it does not use.
pub proof fn law_wei_is_exact(parts: (bool, nat, nat))
    requires
        parts.2 <= 18,
    ensures
        wei_text(parts) == signed_text(
            parts.0 && parts.1 > 0,
            parts.1 * pow10((18 - parts.2) as nat),
        ),
{
    let low = pow10(parts.2);
    let rest = pow10((18 - parts.2) as nat);
    lemma_wei_is_pow10();
    lemma_pow10_sum(parts.2, (18 - parts.2) as nat);
    lemma_pow10_pos(parts.2);
    assert(parts.1 * (low * rest) == low * (parts.1 * rest)) by (nonlinear_arith);
    vstd::arithmetic::div_mod::lemma_div_multiples_vanish((parts.1 * rest) as int, low as int);
}

/// Whether two numbers are the same, whatever their scales and the sign of a
/// zero.
pub open spec fn same_number(a: (bool, nat, nat), b: (bool, nat, nat)) -> bool {
    &&& a.1 * pow10(b.2) == b.1 * pow10(a.2)
    &&& a.1 > 0 ==> a.0 == b.0
}

/// Numbers that are the same have the same amount in wei, or both have none.
pub proof fn law_same_number_same_wei(a: (bool, nat, nat), b: (bool, nat, nat))
    requires
        same_number(a, b),
    ensures
        wei_fits(a) == wei_fits(b),
        wei_text(a) == wei_text(b),
{
    let x = a.1 * WEI as nat;
    let y = b.1 * WEI as nat;
    let p = pow10(a.2);
    let q = pow10(b.2);
    let limit = MAGNITUDE_LIMIT as nat;
    lemma_pow10_pos(a.2);
    lemma_pow10_pos(b.2);
    assert(x * q == y * p) by (nonlinear_arith)
        requires
            a.1 * q == b.1 * p,
            x == a.1 * WEI as nat,
            y == b.1 * WEI as nat,
    ;
    lemma_same_quotient(x, p, y, q);
    assert((x < limit * p) == (y < limit * q)) by (nonlinear_arith)
        requires
            x * q == y * p,
            p > 0,
            q > 0,
    ;
    assert((a.1 > 0) == (b.1 > 0)) by (nonlinear_arith)
        requires
            a.1 * q == b.1 * p,
            p > 0,
            q > 0,
    ;
}

/// The amount in wei is cut towards zero: no more than the number times ten to
/// the power of eighteen, and less than one wei below it. It is written with a
/// `-` exactly where the number is below zero. There is an amount exactly where
/// its whole wei need no more than ninety-six bits.
pub proof fn law_wei_is_cut(parts: (bool, nat, nat))
    ensures
        exists|w: nat|
            {
                &&& wei_text(parts) == (if parts.0 && parts.1 > 0 {
                    seq!['-']
                } else {
                    Seq::empty()
                }) + #[trigger] decimal_text(w)
                &&& w * pow10(parts.2) <= parts.1 * 1_000_000_000_000_000_000
                &&& parts.1 * 1_000_000_000_000_000_000 < (w + 1) * pow10(parts.2)
                &&& wei_fits(parts) == (w < 0x1_0000_0000_0000_0000_0000_0000)
            },
{
    lemma_pow10_pos(parts.2);
    let x = parts.1 * 1_000_000_000_000_000_000;
    let p = pow10(parts.2);
    let w = (x / p) as nat;
    let limit: nat = 0x1_0000_0000_0000_0000_0000_0000;
    assert(w * p <= x < (w + 1) * p) by (nonlinear_arith)
        requires
            p > 0,
            w == x / p,
            x >= 0,
    ;
    assert((x < limit * p) == (w < limit)) by (nonlinear_arith)
        requires
            p > 0,
            w * p <= x < (w + 1) * p,
    ;
    assert(wei_text(parts) =~= (if parts.0 && parts.1 > 0 {
        seq!['-']
    } else {
        Seq::empty()
    }) + decimal_text(w));
}

/// A sign in front of the digits of a number: `-` for a negative one, none for
/// any other. The digits denote the number, without zeros in front.
pub proof fn law_signed_text(negative: bool, magnitude: nat)
    ensures
        negative ==> signed_text(negative, magnitude)[0] == '-' && digits_value(
            signed_text(negative, magnitude).skip(1),
        ) == magnitude,
        !negative ==> digits_value(signed_text(negative, magnitude)) == magnitude,
        !negative && magnitude > 0 ==> signed_text(negative, magnitude)[0] != '0',
{
    law_decimal_text(magnitude);
    assert((seq!['-'] + decimal_text(magnitude)).skip(1) =~= decimal_text(magnitude));
}

/// A text that denotes a number stands for it, and any other for zero.
pub proof fn law_value_or_zero(s: Seq<char>)
    ensures
        decimal_value(s) is Some ==> Some(value_or_zero(s)) == decimal_value(s),
        decimal_value(s) is None ==> value_or_zero(s).1 == 0 && !value_or_zero(s).0,
{
}

} // verus!
