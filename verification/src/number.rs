//! Numbers as they arrive from the exchange.

use crate::decimal::decimal_sum;
use crate::decimal::in_range;
use crate::decimal::is_decimal;
use crate::decimal::max_units;
use crate::decimal::one_units;
use crate::decimal::saturated;
use crate::decimal::truncated;
use crate::decimal::Decimal;
use vstd::prelude::*;

verus! {

/// A finite number: a decimal, or a number below or above all decimals.
#[derive(Clone, Copy, Debug)]
pub enum Number {
    Below,
    Exact(Decimal),
    Above,
}

impl Number {
    /// Where the number stands among all numbers, in units.
    pub open spec fn units(self) -> int {
        match self {
            Number::Below => -max_units() - 1,
            Number::Exact(d) => d.units(),
            Number::Above => max_units() + 1,
        }
    }

    pub fn zero() -> (r: Number)
        ensures
            r == integer(0),
            r.units() == 0,
    {
        Number::Exact(Decimal::zero())
    }

    pub fn from_integer(n: i64) -> (r: Number)
        ensures
            r == integer(n as int),
            r.units() == n * one_units(),
    {
        Number::Exact(Decimal::from_integer(n))
    }

    /// Whether the first number is smaller.
    pub fn less(a: Number, b: Number) -> (r: bool)
        ensures
            r == (a.units() < b.units()),
    {
        let r = match (a, b) {
            (Number::Exact(x), Number::Exact(y)) => Decimal::less(x, y),
            (Number::Below, Number::Below) => false,
            (Number::Below, _) => true,
            (Number::Exact(_), Number::Above) => true,
            _ => false,
        };
        a.show_in_range();
        b.show_in_range();
        r
    }

    /// Nothing is beyond the numbers below and above all decimals.
    fn show_in_range(&self)
        ensures
            -max_units() - 1 <= self.units() <= max_units() + 1,
            self is Exact ==> -max_units() <= self.units() <= max_units(),
            max_units() >= 0,
    {
        match self {
            Number::Exact(d) => {
                d.show_in_range();
            },
            _ => {
                Decimal::zero().show_in_range();
            },
        }
    }

    /// Whether the two are the same number.
    pub fn same(a: Number, b: Number) -> (r: bool)
        ensures
            r == (a.units() == b.units()),
    {
        !Number::less(a, b) && !Number::less(b, a)
    }

    /// The larger of two numbers, the first where they are equal.
    pub fn max(self, other: Number) -> (r: Number)
        ensures
            r == larger(self, other),
    {
        if Number::less(self, other) {
            other
        } else {
            self
        }
    }

    /// The smaller of two numbers, the first where they are equal.
    pub fn min(self, other: Number) -> (r: Number)
        ensures
            r == smaller(self, other),
    {
        if Number::less(other, self) {
            other
        } else {
            self
        }
    }

    /// The sum of two numbers.
    pub fn plus(self, other: Number) -> (r: Number)
        ensures
            r == sum(self, other),
            self is Exact && other is Exact && is_decimal(self.units() + other.units()) ==> r is Exact
                && r.units() == self.units() + other.units(),
            self is Exact && other is Exact && in_range(self.units() + other.units()) ==> r is Exact,
            self is Exact && other is Exact && !(r is Exact) ==> (r is Below <==> self.units()
                + other.units() < 0),
            !(self is Exact) ==> r == self,
            self is Exact && !(other is Exact) ==> r == other,
    {
        match (self, other) {
            (Number::Exact(a), Number::Exact(b)) => match a.checked_add(b) {
                Some(d) => Number::Exact(d),
                None => if b < a.negate() {
                    Number::Below
                } else {
                    Number::Above
                },
            },
            (Number::Exact(_), _) => other,
            _ => self,
        }
    }

    /// The largest integer that is not above the number, held between the bounds of an `i64`.
    pub fn floor_to_i64(&self) -> (r: i64)
        ensures
            r == floor_i64(*self),
    {
        match self {
            Number::Below => i64::MIN,
            Number::Exact(d) => d.floor_to_i64(),
            Number::Above => i64::MAX,
        }
    }

    /// The integer part of the number, held between the bounds of an `i64`.
    pub fn truncate_to_i64(&self) -> (r: i64)
        ensures
            r == truncate_i64(*self),
    {
        match self {
            Number::Below => i64::MIN,
            Number::Exact(d) => d.truncate_to_i64(),
            Number::Above => i64::MAX,
        }
    }
}

/// An integer as a number.
pub open spec fn integer(n: int) -> Number {
    Number::Exact(Decimal::spec_new(n, 0))
}

pub open spec fn larger(a: Number, b: Number) -> Number {
    if a.units() < b.units() {
        b
    } else {
        a
    }
}

pub open spec fn smaller(a: Number, b: Number) -> Number {
    if a.units() > b.units() {
        b
    } else {
        a
    }
}

/// The sum of two numbers. What is beyond all decimals stays there.
pub open spec fn sum(a: Number, b: Number) -> Number {
    match (a, b) {
        (Number::Exact(x), Number::Exact(y)) => match decimal_sum(x, y) {
            Some(d) => Number::Exact(d),
            None => if x.units() + y.units() < 0 {
                Number::Below
            } else {
                Number::Above
            },
        },
        (Number::Exact(_), _) => b,
        _ => a,
    }
}

/// The largest integer that is not above a number, held between the bounds of an `i64`.
pub open spec fn floor_i64(n: Number) -> i64 {
    match n {
        Number::Below => i64::MIN,
        Number::Exact(d) => saturated(d.units() / one_units()),
        Number::Above => i64::MAX,
    }
}

/// The integer part of a number, held between the bounds of an `i64`.
pub open spec fn truncate_i64(n: Number) -> i64 {
    match n {
        Number::Below => i64::MIN,
        Number::Exact(d) => saturated(truncated(d.units())),
        Number::Above => i64::MAX,
    }
}

} // verus!
