use vstd::prelude::*;

use std::str::FromStr;

verus! {

/// The largest scale a decimal amount may carry.
pub const MAX_SCALE: u32 = 28;

/// The largest magnitude of a mantissa (2^96 - 1).
pub const MAX_MANTISSA: i128 = 79228162514264337593543950335;

/// 10 raised to `n`.
pub open spec fn pow10(n: nat) -> int
    decreases n,
{
    if n == 0 {
        1
    } else {
        10 * pow10((n - 1) as nat)
    }
}

pub proof fn lemma_pow10_positive(n: nat)
    ensures
        pow10(n) >= 1,
    decreases n,
{
    if n > 0 {
        lemma_pow10_positive((n - 1) as nat);
    }
}

pub proof fn lemma_pow10_monotone(a: nat, b: nat)
    requires
        a <= b,
    ensures
        pow10(a) <= pow10(b),
    decreases b,
{
    if a < b {
        lemma_pow10_monotone(a, (b - 1) as nat);
        lemma_pow10_positive((b - 1) as nat);
    }
}

/// A decimal number, `mantissa / 10^scale`, with a mantissa of at most 96 bits and a scale
/// of at most 28.
#[derive(Clone, Copy, Debug)]
pub struct Decimal {
    pub mantissa: i128,
    pub scale: u32,
}

impl Decimal {
    /// The representation limits: a 96-bit mantissa and a scale of at most 28.
    pub open spec fn wf(self) -> bool {
        &&& self.scale <= MAX_SCALE
        &&& -MAX_MANTISSA <= self.mantissa <= MAX_MANTISSA
    }

    /// The value of the number counted in units of 10^-28.
    pub open spec fn units(self) -> int {
        self.mantissa * pow10((MAX_SCALE - self.scale) as nat)
    }

    /// The decimal zero.
    pub fn zero() -> (r: Decimal)
        ensures
            r.wf(),
            r.mantissa == 0,
            r.scale == 0,
            r.units() == 0,
    {
        Decimal { mantissa: 0, scale: 0 }
    }

    /// The number with the opposite sign.
    pub fn negate(&self) -> (r: Decimal)
        requires
            self.wf(),
        ensures
            r.wf(),
            r.mantissa == -self.mantissa,
            r.scale == self.scale,
            r.units() == -self.units(),
    {
        let r = Decimal { mantissa: -self.mantissa, scale: self.scale };
        assert(r.units() == -self.units()) by (nonlinear_arith)
            requires
                r.mantissa == -self.mantissa,
                r.scale == self.scale,
                r.units() == r.mantissa * pow10((MAX_SCALE - r.scale) as nat),
                self.units() == self.mantissa * pow10((MAX_SCALE - self.scale) as nat),
        ;
        r
    }
}

/// The exact sum of `a` and `b` fits the representation at the larger of their scales.
pub open spec fn sum_fits(a: Decimal, b: Decimal) -> bool {
    let s = if a.scale >= b.scale { a.scale } else { b.scale };
    let unit = pow10((MAX_SCALE - s) as nat);
    -MAX_MANTISSA * unit <= a.units() + b.units() <= MAX_MANTISSA * unit
}

/// The exact product of `a` and `b` fits the representation without rounding.
pub open spec fn product_fits(a: Decimal, b: Decimal) -> bool {
    &&& a.scale + b.scale <= MAX_SCALE
    &&& -MAX_MANTISSA <= a.mantissa * b.mantissa <= MAX_MANTISSA
}

/// The value of a product `a * b` in units of 10^-28, provided it is exact.
pub open spec fn product_units(a: Decimal, b: Decimal) -> int {
    a.mantissa * b.mantissa * pow10((MAX_SCALE - a.scale - b.scale) as nat)
}

/// What `rust_decimal` reads from the text `s`, when it reads a number.
pub uninterp spec fn decimal_text(s: Seq<char>) -> Option<Decimal>;

/// Relies on `rust_decimal::Decimal::from_str`: parses a decimal number written in base 10,
/// failing (never panicking) on text that is not one.
#[verifier::external_body]
pub(crate) fn parse_decimal(s: &str) -> (r: Option<Decimal>)
    ensures
        r == decimal_text(s@),
        r matches Some(d) ==> d.wf(),
{
    rust_decimal::Decimal::from_str(s).ok().map(
        |d| Decimal { mantissa: d.mantissa(), scale: d.scale() },
    )
}

/// Relies on `rust_decimal::Decimal::checked_add`: the sum is exact whenever it fits the
/// representation at the larger of the two scales, and its scale is then at most that one
/// (it only rounds or fails beyond that).
#[verifier::external_body]
pub(crate) fn checked_add(a: &Decimal, b: &Decimal) -> (r: Option<Decimal>)
    requires
        a.wf(),
        b.wf(),
    ensures
        r matches Some(d) ==> d.wf(),
        sum_fits(*a, *b) ==> r is Some && r->0.units() == a.units() + b.units() && (r->0.scale
            <= a.scale || r->0.scale <= b.scale),
{
    let x = rust_decimal::Decimal::from_i128_with_scale(a.mantissa, a.scale);
    let y = rust_decimal::Decimal::from_i128_with_scale(b.mantissa, b.scale);
    x.checked_add(y).map(|d| Decimal { mantissa: d.mantissa(), scale: d.scale() })
}

/// Relies on `rust_decimal::Decimal::checked_mul`: the product is exact whenever the product
/// of the mantissas fits 96 bits and the scales add up to at most 28; its scale is then at
/// most that sum (a zero product has scale 0).
#[verifier::external_body]
pub(crate) fn checked_mul(a: &Decimal, b: &Decimal) -> (r: Option<Decimal>)
    requires
        a.wf(),
        b.wf(),
    ensures
        r matches Some(d) ==> d.wf(),
        product_fits(*a, *b) ==> r is Some && r->0.units() == product_units(*a, *b) && r->0.scale
            <= a.scale + b.scale,
{
    let x = rust_decimal::Decimal::from_i128_with_scale(a.mantissa, a.scale);
    let y = rust_decimal::Decimal::from_i128_with_scale(b.mantissa, b.scale);
    x.checked_mul(y).map(|d| Decimal { mantissa: d.mantissa(), scale: d.scale() })
}

/// Relies on `PartialEq for rust_decimal::Decimal`: two decimals are equal when their values
/// are, whatever their scales.
#[verifier::external_body]
pub(crate) fn same_value(a: &Decimal, b: &Decimal) -> (r: bool)
    requires
        a.wf(),
        b.wf(),
    ensures
        r == (a.units() == b.units()),
{
    let x = rust_decimal::Decimal::from_i128_with_scale(a.mantissa, a.scale);
    let y = rust_decimal::Decimal::from_i128_with_scale(b.mantissa, b.scale);
    x == y
}

} // verus!
