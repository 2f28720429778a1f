//! Measurements of how many constants, public and private variables, and constraints a
//! circuit synthesizes.

use vstd::prelude::*;

verus! {

/// A quantity that can be measured: exactly, within an inclusive range, or up to an
/// inclusive bound.
#[derive(Clone, Copy, Debug, PartialEq, Eq, Structural)]
pub enum Measurement {
    Exact(u64),
    Range(u64, u64),
    UpperBound(u64),
}

/// Whether the value `v` satisfies the measurement `m`.
pub open spec fn measured(m: Measurement, v: int) -> bool {
    match m {
        Measurement::Exact(e) => v == e,
        Measurement::Range(lower, upper) => lower <= v <= upper,
        Measurement::UpperBound(bound) => v <= bound,
    }
}

/// A measurement with unbounded integers, as a sum of measurements is before it is fitted
/// in `u64`.
pub enum Bounds {
    Exact(int),
    Range(int, int),
    UpperBound(int),
}

/// The sum of two measurements, as mathematical integers: the bounds add up, and an exact
/// value or a lower bound is kept where the other side has one.
pub open spec fn sum_bounds(a: Measurement, b: Measurement) -> Bounds {
    match (a, b) {
        (Measurement::Exact(x), Measurement::Exact(y)) => Bounds::Exact(x + y),
        (Measurement::Range(l1, u1), Measurement::Range(l2, u2)) => Bounds::Range(l1 + l2, u1 + u2),
        (Measurement::UpperBound(u1), Measurement::UpperBound(u2)) => Bounds::UpperBound(u1 + u2),
        (Measurement::Exact(x), Measurement::Range(l, u)) => Bounds::Range(x + l, x + u),
        (Measurement::Range(l, u), Measurement::Exact(x)) => Bounds::Range(x + l, x + u),
        (Measurement::Exact(x), Measurement::UpperBound(u)) => Bounds::UpperBound(x + u),
        (Measurement::UpperBound(u), Measurement::Exact(x)) => Bounds::UpperBound(x + u),
        (Measurement::Range(l, u1), Measurement::UpperBound(u2)) => Bounds::Range(l as int, u1 + u2),
        (Measurement::UpperBound(u1), Measurement::Range(l, u2)) => Bounds::Range(l as int, u1 + u2),
    }
}

/// The sum of two measurements fits in `u64`.
pub open spec fn sum_fits(a: Measurement, b: Measurement) -> bool {
    match sum_bounds(a, b) {
        Bounds::Exact(x) => x <= u64::MAX,
        Bounds::Range(l, u) => l <= u64::MAX && u <= u64::MAX,
        Bounds::UpperBound(u) => u <= u64::MAX,
    }
}

/// The sum of two measurements whose bounds fit in `u64`.
pub open spec fn sum_spec(a: Measurement, b: Measurement) -> Measurement {
    match sum_bounds(a, b) {
        Bounds::Exact(x) => Measurement::Exact(x as u64),
        Bounds::Range(l, u) => Measurement::Range(l as u64, u as u64),
        Bounds::UpperBound(u) => Measurement::UpperBound(u as u64),
    }
}

/// The bounds of a measurement, scaled by `k`, fit in `u64`.
pub open spec fn scale_fits(a: Measurement, k: u64) -> bool {
    match a {
        Measurement::Exact(x) => x * k <= u64::MAX,
        Measurement::Range(l, u) => l * k <= u64::MAX && u * k <= u64::MAX,
        Measurement::UpperBound(u) => u * k <= u64::MAX,
    }
}

/// A measurement with its bounds scaled by `k`.
pub open spec fn scale_spec(a: Measurement, k: u64) -> Measurement {
    match a {
        Measurement::Exact(x) => Measurement::Exact((x * k) as u64),
        Measurement::Range(l, u) => Measurement::Range((l * k) as u64, (u * k) as u64),
        Measurement::UpperBound(u) => Measurement::UpperBound((u * k) as u64),
    }
}

/// Adding measurements is sound: values that satisfy two measurements add up to a value
/// that satisfies their sum.
pub proof fn lemma_sum_sound(a: Measurement, b: Measurement, x: u64, y: u64)
    requires
        sum_fits(a, b),
        measured(a, x as int),
        measured(b, y as int),
    ensures
        measured(sum_spec(a, b), x + y),
{
}

/// Scaling a measurement is sound: a value that satisfies a measurement, scaled by `k`,
/// satisfies the scaled measurement.
pub proof fn lemma_scale_sound(a: Measurement, x: u64, k: u64)
    requires
        scale_fits(a, k),
        measured(a, x as int),
    ensures
        measured(scale_spec(a, k), x * k),
{
    match a {
        Measurement::Exact(e) => {},
        Measurement::Range(l, u) => {
            assert(l * k <= x * k <= u * k) by (nonlinear_arith)
                requires
                    l <= x <= u,
            ;
        },
        Measurement::UpperBound(u) => {
            assert(x * k <= u * k) by (nonlinear_arith)
                requires
                    x <= u,
            ;
        },
    }
}

impl Measurement {
    /// Returns `true` if the value matches the metric: equal to an `Exact` value, within the
    /// bounds of a `Range`, or at most an `UpperBound`.
    pub fn matches(&self, candidate: u64) -> (r: bool)
        ensures
            r == measured(*self, candidate as int),
    {
        match self {
            Measurement::Exact(expected) => *expected == candidate,
            Measurement::Range(lower, upper) => candidate >= *lower && candidate <= *upper,
            Measurement::UpperBound(bound) => candidate <= *bound,
        }
    }

    /// Adds two measurements: `Exact` plus `Exact` is `Exact`, anything with a `Range` is a
    /// `Range`, and otherwise an `UpperBound`.
    pub fn add(self, other: Measurement) -> (r: Measurement)
        requires
            sum_fits(self, other),
        ensures
            r == sum_spec(self, other),
    {
        match (self, other) {
            (Measurement::Exact(a), Measurement::Exact(b)) => Measurement::Exact(a + b),
            (Measurement::Range(la, ua), Measurement::Range(lb, ub)) => Measurement::Range(
                la + lb,
                ua + ub,
            ),
            (Measurement::UpperBound(ua), Measurement::UpperBound(ub)) => Measurement::UpperBound(
                ua + ub,
            ),
            (Measurement::Exact(e), Measurement::Range(lower, upper)) => Measurement::Range(
                e + lower,
                e + upper,
            ),
            (Measurement::Range(lower, upper), Measurement::Exact(e)) => Measurement::Range(
                e + lower,
                e + upper,
            ),
            (Measurement::Exact(e), Measurement::UpperBound(upper)) => Measurement::UpperBound(
                e + upper,
            ),
            (Measurement::UpperBound(upper), Measurement::Exact(e)) => Measurement::UpperBound(
                e + upper,
            ),
            (Measurement::Range(lower, ua), Measurement::UpperBound(ub)) => Measurement::Range(
                lower,
                ua + ub,
            ),
            (Measurement::UpperBound(ua), Measurement::Range(lower, ub)) => Measurement::Range(
                lower,
                ua + ub,
            ),
        }
    }

    /// Scales the measurement by a value.
    pub fn mul(self, other: u64) -> (r: Measurement)
        requires
            scale_fits(self, other),
        ensures
            r == scale_spec(self, other),
    {
        match self {
            Measurement::Exact(value) => Measurement::Exact(value * other),
            Measurement::Range(lower, upper) => Measurement::Range(lower * other, upper * other),
            Measurement::UpperBound(bound) => Measurement::UpperBound(bound * other),
        }
    }
}

/// The number of constants, public inputs, private inputs, and constraints, each measured.
#[derive(Clone, Copy, Debug)]
pub struct Count(pub Measurement, pub Measurement, pub Measurement, pub Measurement);

impl Count {
    /// Returns a new `Count` whose constituent metrics are all `Exact(0)`.
    pub fn zero() -> (r: Count)
        ensures
            r.0 == Measurement::Exact(0),
            r.1 == Measurement::Exact(0),
            r.2 == Measurement::Exact(0),
            r.3 == Measurement::Exact(0),
    {
        Count(
            Measurement::Exact(0),
            Measurement::Exact(0),
            Measurement::Exact(0),
            Measurement::Exact(0),
        )
    }

    /// Returns a new `Count` whose constituent metrics are all `Exact`.
    pub fn is(num_constants: u64, num_public: u64, num_private: u64, num_constraints: u64) -> (r:
        Count)
        ensures
            r.0 == Measurement::Exact(num_constants),
            r.1 == Measurement::Exact(num_public),
            r.2 == Measurement::Exact(num_private),
            r.3 == Measurement::Exact(num_constraints),
    {
        Count(
            Measurement::Exact(num_constants),
            Measurement::Exact(num_public),
            Measurement::Exact(num_private),
            Measurement::Exact(num_constraints),
        )
    }

    /// Returns a new `Count` whose constituent metrics are all inclusive `UpperBound`.
    pub fn less_than(
        num_constants: u64,
        num_public: u64,
        num_private: u64,
        num_constraints: u64,
    ) -> (r: Count)
        ensures
            r.0 == Measurement::UpperBound(num_constants),
            r.1 == Measurement::UpperBound(num_public),
            r.2 == Measurement::UpperBound(num_private),
            r.3 == Measurement::UpperBound(num_constraints),
    {
        Count(
            Measurement::UpperBound(num_constants),
            Measurement::UpperBound(num_public),
            Measurement::UpperBound(num_private),
            Measurement::UpperBound(num_constraints),
        )
    }

    /// Returns `true` if all constituent metrics match.
    pub fn matches(
        &self,
        num_constants: u64,
        num_public: u64,
        num_private: u64,
        num_constraints: u64,
    ) -> (r: bool)
        ensures
            r == (measured(self.0, num_constants as int) && measured(self.1, num_public as int)
                && measured(self.2, num_private as int) && measured(
                self.3,
                num_constraints as int,
            )),
    {
        self.0.matches(num_constants) && self.1.matches(num_public) && self.2.matches(num_private)
            && self.3.matches(num_constraints)
    }

    /// Adds the `Count` to another `Count` by summing its constituent metrics.
    pub fn add(self, other: Count) -> (r: Count)
        requires
            sum_fits(self.0, other.0),
            sum_fits(self.1, other.1),
            sum_fits(self.2, other.2),
            sum_fits(self.3, other.3),
        ensures
            r.0 == sum_spec(self.0, other.0),
            r.1 == sum_spec(self.1, other.1),
            r.2 == sum_spec(self.2, other.2),
            r.3 == sum_spec(self.3, other.3),
    {
        Count(self.0.add(other.0), self.1.add(other.1), self.2.add(other.2), self.3.add(other.3))
    }

    /// Scales the `Count` by a `u64`.
    pub fn mul(self, other: u64) -> (r: Count)
        requires
            scale_fits(self.0, other),
            scale_fits(self.1, other),
            scale_fits(self.2, other),
            scale_fits(self.3, other),
        ensures
            r.0 == scale_spec(self.0, other),
            r.1 == scale_spec(self.1, other),
            r.2 == scale_spec(self.2, other),
            r.3 == scale_spec(self.3, other),
    {
        Count(self.0.mul(other), self.1.mul(other), self.2.mul(other), self.3.mul(other))
    }
}

} // verus!
