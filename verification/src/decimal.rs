//! Decimal numbers: a signed 96-bit mantissa and a power of ten between 0 and 28.
//!
//! Prices, amounts and clock readings are all of this type. Arithmetic is done by
//! `rust_decimal`; what is stated of it here is stated over `units`, the number
//! counted in steps of ten to the minus 28, which is an integer for every decimal.

use crate::wire::digit;
use crate::wire::digits;
use std::cmp::Ordering;
use vstd::arithmetic::div_mod::lemma_fundamental_div_mod_converse;
use vstd::arithmetic::power::lemma_pow_adds;
use vstd::arithmetic::power::lemma_pow_increases;
use vstd::arithmetic::power::lemma_pow_positive;
use vstd::arithmetic::power::pow;
use vstd::prelude::*;

verus! {

/// The largest mantissa, two to the power 96 less one.
pub const MAX_MANTISSA: i128 = 79228162514264337593543950335;

/// The largest number of decimal places.
pub const MAX_SCALE: u32 = 28;

/// A decimal number, `mantissa` divided by ten to the power `scale`.
///
/// Two decimals are equal when they are the same number: 1.5 equals 1.50.
#[derive(Clone, Copy, Debug)]
pub struct Decimal {
    mantissa: i128,
    scale: u32,
}

/// Ten to the power `n`.
pub open spec fn pow10(n: int) -> int {
    pow(10, n as nat)
}

/// The number one in units.
pub open spec fn one_units() -> int {
    pow10(28)
}

/// The largest decimal in units.
pub open spec fn max_units() -> int {
    MAX_MANTISSA * one_units()
}

/// Whether a number of units lies between the smallest and the largest decimal.
pub open spec fn in_range(units: int) -> bool {
    magnitude(units) <= max_units()
}

/// Whether an integer can be a mantissa.
pub open spec fn fits(mantissa: int) -> bool {
    magnitude(mantissa) <= MAX_MANTISSA
}

/// The magnitude of an integer.
pub open spec fn magnitude(n: int) -> int {
    if n < 0 {
        -n
    } else {
        n
    }
}

/// `n` held between the smallest and the largest `i64`.
pub open spec fn saturated(n: int) -> i64 {
    if n < i64::MIN {
        i64::MIN
    } else if n > i64::MAX {
        i64::MAX
    } else {
        n as i64
    }
}

/// The integer part of a number of units, towards zero.
pub open spec fn truncated(units: int) -> int {
    if units < 0 {
        -(-units / one_units())
    } else {
        units / one_units()
    }
}

/// Whether a decimal is a number of units.
pub open spec fn has_units(d: Decimal, units: int) -> bool {
    &&& fits(d.spec_mantissa())
    &&& 0 <= d.spec_scale() <= 28
    &&& d.units() == units
}

/// Whether a number of units is a decimal.
pub open spec fn is_decimal(units: int) -> bool {
    exists|d: Decimal| has_units(d, units)
}

/// Whether the sum of two decimals can be written down without rounding.
pub open spec fn exact_sum(a: Decimal, b: Decimal) -> bool {
    is_decimal(a.units() + b.units())
}

/// Whether the difference of two decimals can be written down without rounding.
pub open spec fn exact_difference(a: Decimal, b: Decimal) -> bool {
    is_decimal(a.units() - b.units())
}

/// Whether the product of two decimals can be written down without rounding.
pub open spec fn exact_product(a: Decimal, b: Decimal) -> bool {
    fits(a.spec_mantissa() * b.spec_mantissa()) && a.spec_scale() + b.spec_scale() <= 28
}

/// Whether `q` is the quotient of two decimals, without rounding.
pub open spec fn is_quotient(a: Decimal, b: Decimal, q: Decimal) -> bool {
    &&& b.units() != 0
    &&& fits(q.spec_mantissa())
    &&& 0 <= q.spec_scale() <= 28
    &&& q.units() * b.units() == a.units() * one_units()
}

/// Whether the quotient of two decimals can be written down without rounding.
pub open spec fn exact_quotient(a: Decimal, b: Decimal) -> bool {
    exists|q: Decimal| is_quotient(a, b, q)
}

/// Whether a decimal is as near to the quotient of two others as a number of units can be.
pub open spec fn nearest_quotient(a: Decimal, b: Decimal, q: Decimal) -> bool {
    2 * magnitude(q.units() * b.units() - a.units() * one_units()) <= magnitude(b.units())
}

/// What `rust_decimal`'s `checked_add` returns.
pub uninterp spec fn decimal_sum(a: Decimal, b: Decimal) -> Option<Decimal>;

/// What `rust_decimal`'s `checked_sub` returns.
pub uninterp spec fn decimal_difference(a: Decimal, b: Decimal) -> Option<Decimal>;

/// What `rust_decimal`'s `checked_mul` returns.
pub uninterp spec fn decimal_product(a: Decimal, b: Decimal) -> Option<Decimal>;

/// What `rust_decimal`'s `checked_div` returns.
pub uninterp spec fn decimal_quotient(a: Decimal, b: Decimal) -> Option<Decimal>;

/// What a JSON number reads as when it is a price.
pub uninterp spec fn price_reading(text: Seq<char>) -> Option<(Option<Decimal>, bool)>;

/// What a JSON number reads as when it is a time.
pub uninterp spec fn time_reading(text: Seq<char>) -> Option<(Option<Decimal>, bool)>;

/// A number in a given count of decimal digits.
pub open spec fn padded(n: nat, places: nat) -> Seq<char>
    decreases places,
{
    if places == 0 {
        Seq::empty()
    } else {
        padded(n / 10, (places - 1) as nat) + digit((n % 10) as int)
    }
}

/// A decimal in digits: a sign where it is negative, the integer part, and behind a point all its
/// decimal places, where it has some.
pub open spec fn decimal_text(d: Decimal) -> Seq<char> {
    let m = magnitude(d.spec_mantissa());
    let power = pow10(d.spec_scale());
    let sign = if d.spec_mantissa() < 0 {
        "-"@
    } else {
        Seq::empty()
    };
    let places = if d.spec_scale() > 0 {
        "."@ + padded((m % power) as nat, d.spec_scale() as nat)
    } else {
        Seq::empty()
    };
    sign + digits((m / power) as nat) + places
}

impl Decimal {
    #[verifier::type_invariant]
    closed spec fn valid(self) -> bool {
        &&& -MAX_MANTISSA <= self.mantissa <= MAX_MANTISSA
        &&& self.scale <= MAX_SCALE
    }

    pub closed spec fn spec_mantissa(self) -> int {
        self.mantissa as int
    }

    pub closed spec fn spec_scale(self) -> int {
        self.scale as int
    }

    /// The decimal with a given mantissa and number of decimal places.
    pub closed spec fn spec_new(mantissa: int, scale: int) -> Decimal {
        Decimal { mantissa: mantissa as i128, scale: scale as u32 }
    }

    /// The decimal without its sign.
    pub open spec fn magnitude(self) -> Decimal {
        Decimal::spec_new(magnitude(self.spec_mantissa()), self.spec_scale())
    }

    /// The decimal with its sign turned round.
    pub open spec fn negated(self) -> Decimal {
        Decimal::spec_new(-self.spec_mantissa(), self.spec_scale())
    }

    /// The number, counted in steps of ten to the minus 28.
    pub open spec fn units(self) -> int {
        self.at_scale(28)
    }

    /// The mantissa of the number once it is written with `scale` decimal places.
    pub open spec fn at_scale(self, scale: int) -> int {
        self.spec_mantissa() * pow10(scale - self.spec_scale())
    }

    /// The decimal with the given mantissa and number of decimal places, where there is one.
    pub fn new(mantissa: i128, scale: u32) -> (r: Option<Decimal>)
        ensures
            r is Some <==> fits(mantissa as int) && scale <= MAX_SCALE,
            r matches Some(d) ==> d.spec_mantissa() == mantissa && d.spec_scale() == scale && d
                == Decimal::spec_new(mantissa as int, scale as int),
    {
        if mantissa < -MAX_MANTISSA || mantissa > MAX_MANTISSA || scale > MAX_SCALE {
            return None;
        }
        Some(Decimal { mantissa, scale })
    }

    /// The integer `n` as a decimal.
    pub fn from_integer(n: i64) -> (r: Decimal)
        ensures
            r == Decimal::spec_new(n as int, 0),
            r.spec_mantissa() == n,
            r.spec_scale() == 0,
            r.units() == n * one_units(),
    {
        Decimal { mantissa: n as i128, scale: 0 }
    }

    /// Zero.
    pub fn zero() -> (r: Decimal)
        ensures
            r == Decimal::spec_new(0, 0),
            r.spec_mantissa() == 0,
            r.spec_scale() == 0,
            r.units() == 0,
    {
        assert(0 * pow10(28) == 0) by (nonlinear_arith);
        Decimal { mantissa: 0, scale: 0 }
    }

    pub fn mantissa(&self) -> (r: i128)
        ensures
            r == self.spec_mantissa(),
            fits(r as int),
    {
        proof {
            use_type_invariant(self);
        }
        self.mantissa
    }

    pub fn scale(&self) -> (r: u32)
        ensures
            r == self.spec_scale(),
            r <= MAX_SCALE,
    {
        proof {
            use_type_invariant(self);
        }
        self.scale
    }

    /// Every decimal is in range.
    pub(crate) fn show_in_range(&self)
        ensures
            in_range(self.units()),
            max_units() > 0,
    {
        proof {
            use_type_invariant(self);
            let m = self.spec_mantissa();
            let p = pow10(28 - self.spec_scale());
            lemma_pow10_positive(28 - self.spec_scale());
            lemma_pow10_positive(28);
            lemma_pow_increases(10, (28 - self.spec_scale()) as nat, 28);
            assert(magnitude(m * p) <= MAX_MANTISSA * one_units()) by (nonlinear_arith)
                requires
                    magnitude(m) <= MAX_MANTISSA,
                    0 < p <= one_units(),
            ;
            assert(MAX_MANTISSA * one_units() > 0) by (nonlinear_arith)
                requires
                    one_units() > 0,
            ;
        }
    }

    /// A decimal and its opposite add up to nothing, without rounding.
    pub(crate) fn show_exact_with_negated(&self)
        ensures
            exact_sum(*self, self.negated()),
            self.negated().units() == -self.units(),
    {
        proof {
            let m = self.spec_mantissa();
            let p = pow10(28 - self.spec_scale());
            use_type_invariant(self);
            assert((-m) * p == -(m * p)) by (nonlinear_arith);
            lemma_written(0, 0);
            assert(0 * pow10(28) == 0) by (nonlinear_arith);
        }
    }

    /// `rust_decimal`'s `<`: compares the two numbers exactly, whatever their scales.
    #[verifier::external_body]
    pub(crate) fn less(a: Decimal, b: Decimal) -> (r: bool)
        ensures
            r == (a.units() < b.units()),
    {
        rust_decimal::Decimal::from_i128_with_scale(a.mantissa, a.scale)
            < rust_decimal::Decimal::from_i128_with_scale(b.mantissa, b.scale)
    }

    /// `rust_decimal`'s `checked_add`: there is a sum whenever the true sum is in range, and
    /// it is exact where the true sum is a decimal. Otherwise it is rounded, which is not stated.
    /// Zero added to another number leaves it as it is.
    #[verifier::external_body]
    pub(crate) fn checked_add(self, other: Decimal) -> (r: Option<Decimal>)
        ensures
            r == decimal_sum(self, other),
            in_range(self.units() + other.units()) ==> r is Some,
            exact_sum(self, other) ==> r is Some && r->0.units() == self.units() + other.units(),
            self.units() != 0 && other.units() == 0 ==> r == Some(self),
    {
        rust_decimal::Decimal::from_i128_with_scale(self.mantissa, self.scale)
            .checked_add(rust_decimal::Decimal::from_i128_with_scale(other.mantissa, other.scale))
            .map(|d| Decimal { mantissa: d.mantissa(), scale: d.scale() })
    }

    /// `rust_decimal`'s `checked_sub`: there is a difference whenever the true difference is
    /// in range, and it is exact where the true difference is a decimal. Otherwise it is rounded,
    /// which is not stated.
    #[verifier::external_body]
    pub(crate) fn checked_sub(self, other: Decimal) -> (r: Option<Decimal>)
        ensures
            r == decimal_difference(self, other),
            in_range(self.units() - other.units()) ==> r is Some,
            exact_difference(self, other) ==> r is Some && r->0.units() == self.units() - other.units(),
    {
        rust_decimal::Decimal::from_i128_with_scale(self.mantissa, self.scale)
            .checked_sub(rust_decimal::Decimal::from_i128_with_scale(other.mantissa, other.scale))
            .map(|d| Decimal { mantissa: d.mantissa(), scale: d.scale() })
    }

    /// `rust_decimal`'s `checked_mul`: there is a product whenever the true product is in
    /// range, and it is exact when the product of the mantissas fits at the sum of the scales.
    /// Otherwise it is rounded, which is not stated.
    #[verifier::external_body]
    pub(crate) fn checked_mul(self, other: Decimal) -> (r: Option<Decimal>)
        ensures
            r == decimal_product(self, other),
            magnitude(self.units() * other.units()) <= max_units() * one_units() ==> r is Some,
            exact_product(self, other) ==> r is Some && r->0.units() * one_units() == self.units()
                * other.units(),
    {
        rust_decimal::Decimal::from_i128_with_scale(self.mantissa, self.scale)
            .checked_mul(rust_decimal::Decimal::from_i128_with_scale(other.mantissa, other.scale))
            .map(|d| Decimal { mantissa: d.mantissa(), scale: d.scale() })
    }

    /// `rust_decimal`'s `checked_div`: there is no quotient by zero, and there is one whenever
    /// the divisor is not zero and the true quotient is in range. It is exact where the true
    /// quotient is a decimal, and rounded to the nearest unit where it is not larger than one.
    /// Otherwise it is rounded to what the mantissa holds, which is not stated.
    #[verifier::external_body]
    pub(crate) fn checked_div(self, other: Decimal) -> (r: Option<Decimal>)
        ensures
            r == decimal_quotient(self, other),
            other.units() == 0 ==> r is None,
            other.units() != 0 && magnitude(self.units()) * one_units() <= max_units()
                * magnitude(other.units()) ==> r is Some,
            exact_quotient(self, other) ==> r is Some && is_quotient(self, other, r->0),
            other.units() != 0 && magnitude(self.units()) <= magnitude(other.units()) ==> r is Some
                && nearest_quotient(self, other, r->0),
    {
        rust_decimal::Decimal::from_i128_with_scale(self.mantissa, self.scale)
            .checked_div(rust_decimal::Decimal::from_i128_with_scale(other.mantissa, other.scale))
            .map(|d| Decimal { mantissa: d.mantissa(), scale: d.scale() })
    }

    /// The price that a JSON number is, and whether it is negative: `as_f64` of the
    /// `serde_json::Value` that the text is, and `rust_decimal`'s `from_f64`, which keeps the
    /// digits that the floating-point number vouches for. None where the text is no JSON number;
    /// no decimal where it is too large for one.
    #[verifier::external_body]
    pub(crate) fn read_price(text: &str) -> (r: Option<(Option<Decimal>, bool)>)
        ensures
            r == price_reading(text@),
    {
        let n = serde_json::from_str::<serde_json::Value>(text).ok()?.as_f64()?;
        let d: Option<rust_decimal::Decimal> = rust_decimal::prelude::FromPrimitive::from_f64(n);
        Some(
            (d.map(|d| Decimal { mantissa: d.mantissa(), scale: d.scale() }), n.is_sign_negative()),
        )
    }

    /// The time that a JSON number is, and whether it is negative: `as_f64` of the
    /// `serde_json::Value` that the text is, and `rust_decimal`'s `from_f64_retain`, which keeps
    /// the excess digits of the floating-point number. None where the text is no JSON number; no
    /// decimal where it is too large for one.
    #[verifier::external_body]
    pub(crate) fn read_time(text: &str) -> (r: Option<(Option<Decimal>, bool)>)
        ensures
            r == time_reading(text@),
    {
        let n = serde_json::from_str::<serde_json::Value>(text).ok()?.as_f64()?;
        let d = rust_decimal::Decimal::from_f64_retain(n);
        Some(
            (d.map(|d| Decimal { mantissa: d.mantissa(), scale: d.scale() }), n.is_sign_negative()),
        )
    }

    /// `rust_decimal`'s `to_string`: the number in digits, with all its decimal places.
    #[verifier::external_body]
    fn written(&self) -> (r: String)
        ensures
            r@ == decimal_text(*self),
    {
        rust_decimal::Decimal::from_i128_with_scale(self.mantissa, self.scale).to_string()
    }

    /// The number in decimal digits, with all its decimal places.
    pub fn to_string(&self) -> (r: String)
        ensures
            r@ == decimal_text(*self),
    {
        self.written()
    }

    /// The larger of two decimals, the first where they are equal.
    pub fn max(self, other: Decimal) -> (r: Decimal)
        ensures
            r == if self.units() < other.units() {
                other
            } else {
                self
            },
    {
        if Decimal::less(self, other) {
            other
        } else {
            self
        }
    }

    /// The smaller of two decimals, the first where they are equal.
    pub fn min(self, other: Decimal) -> (r: Decimal)
        ensures
            r == if self.units() > other.units() {
                other
            } else {
                self
            },
    {
        if Decimal::less(other, self) {
            other
        } else {
            self
        }
    }

    /// The number with its sign turned round.
    pub fn negate(self) -> (r: Decimal)
        ensures
            r == self.negated(),
            r.spec_mantissa() == -self.spec_mantissa(),
            r.spec_scale() == self.spec_scale(),
            r.units() == -self.units(),
    {
        proof {
            use_type_invariant(&self);
            let p = pow10(28 - self.spec_scale());
            assert((-self.spec_mantissa()) * p == -(self.spec_mantissa() * p)) by (nonlinear_arith);
        }
        Decimal { mantissa: -self.mantissa, scale: self.scale }
    }

    /// The number without its sign.
    pub fn abs(self) -> (r: Decimal)
        ensures
            r == self.magnitude(),
            r.spec_mantissa() == magnitude(self.spec_mantissa()),
            r.spec_scale() == self.spec_scale(),
            r.units() == magnitude(self.units()),
    {
        proof {
            let m = self.spec_mantissa();
            let p = pow10(28 - self.spec_scale());
            lemma_pow10_positive(28 - self.spec_scale());
            assert(m < 0 ==> m * p < 0) by (nonlinear_arith)
                requires
                    p > 0,
            ;
            assert(m >= 0 ==> m * p >= 0) by (nonlinear_arith)
                requires
                    p > 0,
            ;
        }
        if self.mantissa < 0 {
            self.negate()
        } else {
            self
        }
    }

    /// Whether the number is above zero.
    pub fn is_positive(&self) -> (r: bool)
        ensures
            r == (self.units() > 0),
    {
        proof {
            let m = self.spec_mantissa();
            let p = pow10(28 - self.spec_scale());
            lemma_pow10_positive(28 - self.spec_scale());
            assert((m > 0) == (m * p > 0)) by (nonlinear_arith)
                requires
                    p > 0,
            ;
        }
        self.mantissa > 0
    }

    /// The largest integer that is not above the number, held between the bounds of an `i64`.
    pub fn floor_to_i64(&self) -> (r: i64)
        ensures
            r == saturated(self.units() / one_units()),
    {
        let (quotient, remainder) = self.split_magnitude();
        let mut floor: i128 = if self.mantissa < 0 {
            -quotient
        } else {
            quotient
        };
        if self.mantissa < 0 && remainder != 0 {
            floor = floor - 1;
        }
        proof {
            lemma_integer_part(*self, quotient as int, remainder as int);
        }
        saturate(floor)
    }

    /// The integer part of the number, held between the bounds of an `i64`.
    pub fn truncate_to_i64(&self) -> (r: i64)
        ensures
            r == saturated(truncated(self.units())),
    {
        let (quotient, remainder) = self.split_magnitude();
        proof {
            lemma_integer_part(*self, quotient as int, remainder as int);
        }
        if self.mantissa < 0 {
            saturate(-quotient)
        } else {
            saturate(quotient)
        }
    }

    /// Divides the magnitude of the mantissa by ten to the power of the scale.
    fn split_magnitude(&self) -> (r: (i128, i128))
        ensures
            0 <= r.0 <= MAX_MANTISSA,
            0 <= r.1 < pow10(self.spec_scale()),
            magnitude(self.spec_mantissa()) == r.0 * pow10(self.spec_scale()) + r.1,
            0 <= self.spec_scale() <= 28,
    {
        proof {
            use_type_invariant(self);
        }
        let power = power_of_ten(self.scale);
        let m: i128 = if self.mantissa < 0 {
            -self.mantissa
        } else {
            self.mantissa
        };
        let quotient: i128 = m / power;
        let remainder: i128 = m % power;
        proof {
            vstd::arithmetic::div_mod::lemma_fundamental_div_mod(m as int, power as int);
            assert(quotient * power == power * quotient) by (nonlinear_arith);
            assert(quotient <= m) by (nonlinear_arith)
                requires
                    quotient >= 0,
                    power >= 1,
                    m == power * quotient + remainder,
                    remainder >= 0,
            ;
        }
        (quotient, remainder)
    }
}

impl PartialEq for Decimal {
    fn eq(&self, other: &Decimal) -> (r: bool) {
        !Decimal::less(*self, *other) && !Decimal::less(*other, *self)
    }
}

impl vstd::std_specs::cmp::PartialEqSpecImpl for Decimal {
    open spec fn obeys_eq_spec() -> bool {
        true
    }

    open spec fn eq_spec(&self, other: &Decimal) -> bool {
        self.units() == other.units()
    }
}

impl PartialOrd for Decimal {
    fn partial_cmp(&self, other: &Decimal) -> (r: Option<Ordering>) {
        if Decimal::less(*self, *other) {
            Some(Ordering::Less)
        } else if Decimal::less(*other, *self) {
            Some(Ordering::Greater)
        } else {
            Some(Ordering::Equal)
        }
    }
}

impl vstd::std_specs::cmp::PartialOrdSpecImpl for Decimal {
    open spec fn obeys_partial_cmp_spec() -> bool {
        true
    }

    open spec fn partial_cmp_spec(&self, other: &Decimal) -> Option<Ordering> {
        if self.units() < other.units() {
            Some(Ordering::Less)
        } else if self.units() > other.units() {
            Some(Ordering::Greater)
        } else {
            Some(Ordering::Equal)
        }
    }
}

/// Ten to the power `n` as an `i128`.
fn power_of_ten(n: u32) -> (r: i128)
    requires
        n <= 28,
    ensures
        r == pow10(n as int),
        1 <= r <= 10000000000000000000000000000,
{
    let mut r: i128 = 1;
    let mut i: u32 = 0;
    proof {
        reveal(pow);
    }
    while i < n
        invariant
            i <= n <= 28,
            r == pow10(i as int),
            1 <= r,
        decreases n - i,
    {
        proof {
            reveal(pow);
            lemma_pow10_bound(i as int);
            assert(pow10(i + 1) == 10 * pow10(i as int));
            lemma_pow10_bound(i + 1);
        }
        r = r * 10;
        i = i + 1;
    }
    proof {
        lemma_pow10_bound(n as int);
    }
    r
}

/// `n` held between the bounds of an `i64`.
fn saturate(n: i128) -> (r: i64)
    ensures
        r == saturated(n as int),
{
    if n < i64::MIN as i128 {
        i64::MIN
    } else if n > i64::MAX as i128 {
        i64::MAX
    } else {
        n as i64
    }
}

pub proof fn lemma_pow10_positive(n: int)
    ensures
        pow10(n) > 0,
{
    lemma_pow_positive(10, n as nat);
}

/// A decimal has the mantissa and the scale that it is made of.
pub proof fn lemma_new(mantissa: int, scale: int)
    requires
        fits(mantissa),
        0 <= scale <= 28,
    ensures
        Decimal::spec_new(mantissa, scale).spec_mantissa() == mantissa,
        Decimal::spec_new(mantissa, scale).spec_scale() == scale,
{
}

/// A mantissa with some decimal places is a decimal.
pub proof fn lemma_written(mantissa: int, scale: int)
    requires
        fits(mantissa),
        0 <= scale <= 28,
    ensures
        is_decimal(mantissa * pow10(28 - scale)),
{
    lemma_new(mantissa, scale);
    assert(has_units(Decimal::spec_new(mantissa, scale), mantissa * pow10(28 - scale)));
}

/// An integer keeps its value as a decimal.
pub proof fn lemma_integer(n: i64)
    ensures
        Decimal::spec_new(n as int, 0).units() == n * one_units(),
        truncated(n * one_units()) == n,
        (n * one_units()) / one_units() == n as int,
{
    let one = one_units();
    lemma_pow10_positive(28);
    assert(n as int == n as i128 as int);
    lemma_fundamental_div_mod_converse(n * one, one, n as int, 0);
    assert(-(n * one) == (-n) * one) by (nonlinear_arith);
    lemma_fundamental_div_mod_converse(-(n * one), one, -(n as int), 0);
    assert(n < 0 ==> n * one < 0) by (nonlinear_arith)
        requires
            one > 0,
    ;
    assert(n >= 0 ==> n * one >= 0) by (nonlinear_arith)
        requires
            one > 0,
    ;
}

/// A hundredth of a multiple of a decimal can be written down where the multiple fits the mantissa
/// and two decimal places are left.
pub proof fn lemma_hundredth(d: Decimal, n: int, multiple: Decimal, hundred: Decimal)
    requires
        fits(d.spec_mantissa() * n),
        d.spec_scale() + 2 <= 28,
        multiple.units() == d.units() * n,
        hundred.units() == 100 * one_units(),
    ensures
        exact_quotient(multiple, hundred),
{
    let m = d.spec_mantissa() * n;
    let q = Decimal::spec_new(m, d.spec_scale() + 2);
    let c = pow10(26 - d.spec_scale());
    lemma_pow10_positive(28);
    lemma_pow_adds(10, (26 - d.spec_scale()) as nat, 2);
    assert(pow(10, 2) == 100) by {
        reveal_with_fuel(pow, 3);
    }
    assert(q.units() == m * c);
    assert(m * c * (100 * one_units()) == d.spec_mantissa() * (c * 100) * n * one_units())
        by (nonlinear_arith)
        requires
            m == d.spec_mantissa() * n,
    ;
    assert(is_quotient(multiple, hundred, q));
}

proof fn lemma_pow10_bound(n: int)
    requires
        0 <= n <= 28,
    ensures
        1 <= pow10(n) <= 10000000000000000000000000000,
{
    lemma_pow10_positive(n);
    lemma_pow_increases(10, n as nat, 28);
    assert(pow(10, 28) == 10000000000000000000000000000) by {
        reveal_with_fuel(pow, 29);
    }
}

/// Relates the units of a decimal to the quotient and remainder of its mantissa.
proof fn lemma_integer_part(d: Decimal, quotient: int, remainder: int)
    requires
        0 <= d.spec_scale() <= 28,
        0 <= quotient,
        0 <= remainder < pow10(d.spec_scale()),
        magnitude(d.spec_mantissa()) == quotient * pow10(d.spec_scale()) + remainder,
    ensures
        truncated(d.units()) == if d.spec_mantissa() < 0 {
            -quotient
        } else {
            quotient
        },
        d.units() / one_units() == if d.spec_mantissa() >= 0 {
            quotient
        } else if remainder == 0 {
            -quotient
        } else {
            -quotient - 1
        },
{
    let m = d.spec_mantissa();
    let p = pow10(d.spec_scale());
    let c = pow10(28 - d.spec_scale());
    let one = one_units();
    lemma_pow10_positive(d.spec_scale());
    lemma_pow10_positive(28 - d.spec_scale());
    lemma_pow_adds(10, d.spec_scale() as nat, (28 - d.spec_scale()) as nat);
    assert(one == p * c);
    assert(magnitude(m) * c == quotient * one + remainder * c) by (nonlinear_arith)
        requires
            magnitude(m) == quotient * p + remainder,
            one == p * c,
    ;
    assert(0 <= remainder * c < one) by (nonlinear_arith)
        requires
            0 <= remainder < p,
            c > 0,
            one == p * c,
    ;
    lemma_fundamental_div_mod_converse(magnitude(m) * c, one, quotient, remainder * c);
    assert((-m) * c == -(m * c)) by (nonlinear_arith);
    assert(m >= 0 ==> m * c >= 0) by (nonlinear_arith)
        requires
            c > 0,
    ;
    assert(m < 0 ==> m * c < 0) by (nonlinear_arith)
        requires
            c > 0,
    ;
    if m < 0 {
        if remainder == 0 {
            assert(m * c == (-quotient) * one + 0) by (nonlinear_arith)
                requires
                    -(m * c) == quotient * one + 0 * c,
            ;
            lemma_fundamental_div_mod_converse(m * c, one, -quotient, 0);
        } else {
            assert(remainder * c > 0) by (nonlinear_arith)
                requires
                    remainder > 0,
                    c > 0,
            ;
            assert(m * c == (-quotient - 1) * one + (one - remainder * c)) by (nonlinear_arith)
                requires
                    -(m * c) == quotient * one + remainder * c,
            ;
            lemma_fundamental_div_mod_converse(m * c, one, -quotient - 1, one - remainder * c);
        }
    }
}

} // verus!
