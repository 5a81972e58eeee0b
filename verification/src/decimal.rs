//! Decimal figures: a whole number of units of a power of ten.

use rust_decimal::prelude::ToPrimitive;
use vstd::prelude::*;

use crate::calendar::whole_units;

verus! {

/// The decimal `mantissa / 10^scale`.
#[derive(Clone, Copy, Debug)]
pub struct Dec {
    pub mantissa: i128,
    pub scale: u32,
}

/// The largest mantissa there is: 96 bits.
pub const MAX_MANTISSA: i128 = 79_228_162_514_264_337_593_543_950_335;

/// Ten to the power `n`.
pub open spec fn power10(n: int) -> int
    decreases n,
{
    if n <= 0 {
        1
    } else {
        10 * power10(n - 1)
    }
}

impl Dec {
    /// A decimal there is room for.
    pub open spec fn valid(self) -> bool {
        -MAX_MANTISSA <= self.mantissa <= MAX_MANTISSA && self.scale <= 28
    }

    /// The decimal is below the whole number.
    pub open spec fn below(self, n: int) -> bool {
        self.mantissa < n * power10(self.scale as int)
    }

    /// The decimal is above the whole number.
    pub open spec fn above(self, n: int) -> bool {
        self.mantissa > n * power10(self.scale as int)
    }
}

/// How a decimal stands to a whole number: -1 below it, 0 equal, 1 above.
pub open spec fn standing(d: Dec, n: i64) -> int {
    if d.below(n as int) {
        -1
    } else if d.above(n as int) {
        1
    } else {
        0
    }
}

/// How a decimal stands to a whole number.
///
/// Calls `Ord::cmp` of `rust_decimal::Decimal`, which compares the values.
#[verifier::external_body]
fn stand(d: Dec, n: i64) -> (r: i8)
    requires
        d.valid(),
    ensures
        r == standing(d, n),
{
    let a = rust_decimal::Decimal::from_i128_with_scale(d.mantissa, d.scale);
    match a.cmp(&rust_decimal::Decimal::from(n)) {
        std::cmp::Ordering::Less => -1,
        std::cmp::Ordering::Equal => 0,
        std::cmp::Ordering::Greater => 1,
    }
}

/// Whether a decimal is below a whole number.
pub fn is_below(d: Dec, n: i64) -> (r: bool)
    requires
        d.valid(),
    ensures
        r == d.below(n as int),
{
    stand(d, n) == -1
}

/// Whether a decimal is above a whole number.
pub fn is_above(d: Dec, n: i64) -> (r: bool)
    requires
        d.valid(),
    ensures
        r == d.above(n as int),
{
    stand(d, n) == 1
}

/// A decimal without its fraction, where an `i64` holds it.
///
/// Calls `ToPrimitive::to_i64` of `rust_decimal::Decimal`.
#[verifier::external_body]
pub(crate) fn without_fraction(d: Dec) -> (r: Option<i64>)
    requires
        d.valid(),
    ensures
        r == as_i64(whole_units(d.mantissa as int, power10(d.scale as int))),
{
    rust_decimal::Decimal::from_i128_with_scale(d.mantissa, d.scale).to_i64()
}

/// A decimal to the nearest whole number, halves to the even one.
pub open spec fn half_even(d: Dec) -> int {
    let unit = power10(d.scale as int);
    let m = if d.mantissa >= 0 {
        d.mantissa as int
    } else {
        -d.mantissa
    };
    let q = m / unit;
    let rest = 2 * (m % unit);
    let n = if rest > unit || (rest == unit && q % 2 == 1) {
        q + 1
    } else {
        q
    };
    if d.mantissa >= 0 {
        n
    } else {
        -n
    }
}

/// A decimal to the nearest whole number, halves to the even one.
///
/// Calls `Decimal::round`.
#[verifier::external_body]
pub(crate) fn rounded_even(d: Dec) -> (r: i128)
    requires
        d.valid(),
    ensures
        r == half_even(d),
        -MAX_MANTISSA <= r <= MAX_MANTISSA,
{
    rust_decimal::Decimal::from_i128_with_scale(d.mantissa, d.scale).round().mantissa()
}

/// An integer where an `i64` holds it.
pub open spec fn as_i64(n: int) -> Option<i64> {
    if i64::MIN <= n <= i64::MAX {
        Some(n as i64)
    } else {
        None
    }
}

/// A decimal divided by a whole number, as `rust_decimal` divides.
pub uninterp spec fn quotient(mantissa: int, scale: int, n: int) -> Dec;

/// A decimal divided by a whole number.
///
/// Calls `rust_decimal`'s division. A quotient that needs no more places than
/// the dividend has is exact; any other goes on for as many places as there is
/// room for, and how it ends is left unsaid.
#[verifier::external_body]
pub(crate) fn divided(d: Dec, n: u32) -> (r: Dec)
    requires
        d.valid(),
        n > 0,
    ensures
        r == quotient(d.mantissa as int, d.scale as int, n as int),
        r.valid(),
        d.mantissa != 0 && d.mantissa % n as i128 == 0 ==> r.mantissa == d.mantissa / n as i128
            && r.scale == d.scale,
        d.mantissa == 0 ==> r.mantissa == 0,
{
    let a = rust_decimal::Decimal::from_i128_with_scale(d.mantissa, d.scale);
    let q = a / rust_decimal::Decimal::from(n);
    Dec { mantissa: q.mantissa(), scale: q.scale() }
}

/// A decimal to the nearest whole number, halves away from zero.
pub open spec fn half_away(d: Dec) -> int {
    let unit = power10(d.scale as int);
    if d.mantissa >= 0 {
        (2 * d.mantissa + unit) / (2 * unit)
    } else {
        -((2 * (-d.mantissa) + unit) / (2 * unit))
    }
}

/// A decimal to the nearest whole number, halves away from zero.
///
/// Calls `Decimal::round_dp_with_strategy` for no places, with
/// `RoundingStrategy::MidpointAwayFromZero`.
#[verifier::external_body]
pub(crate) fn rounded(d: Dec) -> (r: i128)
    requires
        d.valid(),
    ensures
        r == half_away(d),
        -MAX_MANTISSA <= r <= MAX_MANTISSA,
{
    rust_decimal::Decimal::from_i128_with_scale(d.mantissa, d.scale)
        .round_dp_with_strategy(0, rust_decimal::RoundingStrategy::MidpointAwayFromZero)
        .mantissa()
}

/// Nothing, as a decimal.
pub open spec fn zero() -> Dec {
    Dec { mantissa: 0, scale: 0 }
}

/// One, as a decimal.
pub open spec fn one() -> Dec {
    Dec { mantissa: 1, scale: 0 }
}

/// A whole number above the size of a decimal.
pub open spec fn ceiling(d: Dec) -> int {
    (if d.mantissa >= 0 {
        d.mantissa as int
    } else {
        -d.mantissa
    }) / power10(d.scale as int) + 1
}

/// A decimal's mantissa at a scale no smaller than its own.
pub open spec fn at_scale(d: Dec, scale: int) -> int {
    d.mantissa * power10(scale - d.scale)
}

/// The larger scale of two decimals.
pub open spec fn shared_scale(a: Dec, b: Dec) -> int {
    if a.scale >= b.scale {
        a.scale as int
    } else {
        b.scale as int
    }
}

/// A mantissa there is room for.
pub open spec fn has_room(mantissa: int) -> bool {
    -MAX_MANTISSA <= mantissa <= MAX_MANTISSA
}

/// The sum of two decimals, given by mantissa and scale, as `rust_decimal` adds.
pub uninterp spec fn total(a: int, a_scale: int, b: int, b_scale: int) -> Dec;

/// The difference of two decimals, given by mantissa and scale, as
/// `rust_decimal` subtracts.
pub uninterp spec fn difference(a: int, a_scale: int, b: int, b_scale: int) -> Dec;

/// The product of two decimals, given by mantissa and scale, as `rust_decimal`
/// multiplies.
pub uninterp spec fn product(a: int, a_scale: int, b: int, b_scale: int) -> Dec;

/// The sum of two decimals.
///
/// Calls `rust_decimal`'s addition. A zero leaves the other as it is; where both
/// and their sum have room at the larger scale the sum is exact, at that scale;
/// else `rust_decimal` rounds it at a smaller one, by less than one, and how is
/// left unsaid.
#[verifier::external_body]
pub(crate) fn plus(a: Dec, b: Dec) -> (r: Dec)
    requires
        a.valid(),
        b.valid(),
        ceiling(a) + ceiling(b) <= MAX_MANTISSA,
    ensures
        r == total(a.mantissa as int, a.scale as int, b.mantissa as int, b.scale as int),
        r.valid(),
        ceiling(r) <= ceiling(a) + ceiling(b) + 1,
        a.mantissa == 0 ==> r == b,
        a.mantissa != 0 && b.mantissa == 0 ==> r == a,
        ({
            let s = shared_scale(a, b);
            a.mantissa != 0 && b.mantissa != 0 && has_room(at_scale(a, s)) && has_room(
                at_scale(b, s),
            ) && has_room(at_scale(a, s) + at_scale(b, s)) ==> r.mantissa == at_scale(a, s)
                + at_scale(b, s) && r.scale == s
        }),
{
    let x = rust_decimal::Decimal::from_i128_with_scale(a.mantissa, a.scale);
    let y = rust_decimal::Decimal::from_i128_with_scale(b.mantissa, b.scale);
    let t = x + y;
    Dec { mantissa: t.mantissa(), scale: t.scale() }
}

/// The difference of two decimals.
///
/// Calls `rust_decimal`'s subtraction. Taking off a zero leaves the first as it
/// is; where both and their difference have room at the larger scale the
/// difference is exact, at that scale; else `rust_decimal` rounds it at a smaller
/// one, by less than one, and how is left unsaid.
#[verifier::external_body]
pub(crate) fn minus(a: Dec, b: Dec) -> (r: Dec)
    requires
        a.valid(),
        b.valid(),
        ceiling(a) + ceiling(b) <= MAX_MANTISSA,
    ensures
        r == difference(a.mantissa as int, a.scale as int, b.mantissa as int, b.scale as int),
        r.valid(),
        ceiling(r) <= ceiling(a) + ceiling(b) + 1,
        a.mantissa != 0 && b.mantissa == 0 ==> r == a,
        ({
            let s = shared_scale(a, b);
            a.mantissa != 0 && b.mantissa != 0 && has_room(at_scale(a, s)) && has_room(
                at_scale(b, s),
            ) && has_room(at_scale(a, s) - at_scale(b, s)) ==> r.mantissa == at_scale(a, s)
                - at_scale(b, s) && r.scale == s
        }),
{
    let x = rust_decimal::Decimal::from_i128_with_scale(a.mantissa, a.scale);
    let y = rust_decimal::Decimal::from_i128_with_scale(b.mantissa, b.scale);
    let t = x - y;
    Dec { mantissa: t.mantissa(), scale: t.scale() }
}

/// Whether the product of two decimals is a decimal there is room for.
pub open spec fn product_fits(a: Dec, b: Dec) -> bool {
    let n = MAX_MANTISSA * power10(a.scale + b.scale);
    -n <= a.mantissa * b.mantissa <= n
}

/// The product of two decimals.
///
/// Calls `rust_decimal`'s multiplication. A zero gives zero; where the product
/// of the mantissas has room and the scales add up to one there is, the product
/// is exact, at that scale; else `rust_decimal` rounds it, by less than one, and
/// how is left unsaid.
#[verifier::external_body]
pub(crate) fn multiplied(a: Dec, b: Dec) -> (r: Dec)
    requires
        a.valid(),
        b.valid(),
        product_fits(a, b),
    ensures
        r == product(a.mantissa as int, a.scale as int, b.mantissa as int, b.scale as int),
        r.valid(),
        ceiling(r) <= ceiling(a) * ceiling(b) + 1,
        a.mantissa == 0 || b.mantissa == 0 ==> r == zero(),
        a.mantissa != 0 && b.mantissa != 0 && a.scale + b.scale <= 28 && has_room(
            a.mantissa * b.mantissa,
        ) ==> r.mantissa == a.mantissa * b.mantissa && r.scale == a.scale + b.scale,
{
    let x = rust_decimal::Decimal::from_i128_with_scale(a.mantissa, a.scale);
    let y = rust_decimal::Decimal::from_i128_with_scale(b.mantissa, b.scale);
    let t = x * y;
    Dec { mantissa: t.mantissa(), scale: t.scale() }
}

/// A decimal's ceiling is at least one.
pub(crate) proof fn lemma_ceiling(d: Dec)
    ensures
        ceiling(d) >= 1,
{
    lemma_power10(d.scale as int);
    let m = if d.mantissa >= 0 {
        d.mantissa as int
    } else {
        -d.mantissa
    };
    let unit = power10(d.scale as int);
    assert(m / unit >= 0) by (nonlinear_arith)
        requires
            m >= 0,
            unit > 0,
    ;
}

/// The product of two decimals is below that of their ceilings.
pub(crate) proof fn lemma_ceilings_fit(a: Dec, b: Dec)
    requires
        ceiling(a) * ceiling(b) <= MAX_MANTISSA,
    ensures
        product_fits(a, b),
{
    let (ua, ub) = (power10(a.scale as int), power10(b.scale as int));
    lemma_ceiling(a);
    lemma_ceiling(b);
    lemma_power10(a.scale as int);
    lemma_power10(b.scale as int);
    lemma_powers_multiply(a.scale as int, b.scale as int);
    let (m, n) = (a.mantissa as int, b.mantissa as int);
    let (ca, cb) = (ceiling(a), ceiling(b));
    lemma_below_ceiling(a);
    lemma_below_ceiling(b);
    assert(-(ca * ua * (cb * ub)) <= m * n <= ca * ua * (cb * ub)) by (nonlinear_arith)
        requires
            -(ca * ua) <= m <= ca * ua,
            -(cb * ub) <= n <= cb * ub,
    ;
    assert(ca * ua * (cb * ub) == ca * cb * (ua * ub)) by (nonlinear_arith);
    assert(ca * cb * (ua * ub) <= MAX_MANTISSA * (ua * ub)) by (nonlinear_arith)
        requires
            ca * cb <= MAX_MANTISSA,
            ua >= 1,
            ub >= 1,
    ;
}

proof fn lemma_below_ceiling(d: Dec)
    ensures
        -(ceiling(d) * power10(d.scale as int)) <= d.mantissa <= ceiling(d) * power10(
            d.scale as int,
        ),
{
    let unit = power10(d.scale as int);
    lemma_power10(d.scale as int);
    let m = if d.mantissa >= 0 {
        d.mantissa as int
    } else {
        -d.mantissa
    };
    assert(m <= (m / unit + 1) * unit) by (nonlinear_arith)
        requires
            unit >= 1,
            m >= 0,
    ;
}

proof fn lemma_powers_multiply(a: int, b: int)
    requires
        a >= 0,
        b >= 0,
    ensures
        power10(a + b) == power10(a) * power10(b),
    decreases b,
{
    if b > 0 {
        lemma_powers_multiply(a, b - 1);
        assert(power10(a + b) == 10 * power10(a + b - 1));
        assert(power10(a) * (10 * power10(b - 1)) == 10 * (power10(a) * power10(b - 1)))
            by (nonlinear_arith);
    } else {
        assert(power10(a) * 1 == power10(a));
    }
}

proof fn lemma_power10(n: int)
    ensures
        power10(n) >= 1,
    decreases n,
{
    if n > 0 {
        lemma_power10(n - 1);
    }
}

} // verus!
