//! Percentages and exact fractions of busy time.

use vstd::prelude::*;

verus! {

/// A percentage as a whole number from 0 to 100.
#[derive(Debug, Clone, Copy, PartialEq, Eq, PartialOrd, Ord, Hash, Structural)]
pub struct IntegerPercentage {
    percent: u8,
}

/// Why a number is no percentage: it is above 100.
#[derive(Debug, Clone, Copy, PartialEq, Eq, Structural)]
pub struct PercentageError;

impl IntegerPercentage {
    #[verifier::type_invariant]
    closed spec fn inv(&self) -> bool {
        self.percent <= 100
    }

    /// The number of hundredths.
    pub closed spec fn value(self) -> u8 {
        self.percent
    }

    /// The percentage of that many hundredths.
    pub closed spec fn of(percent: u8) -> Self {
        IntegerPercentage { percent }
    }

    /// The percentage of that many hundredths, if there are at most 100.
    pub fn try_new(percent: u8) -> (r: Result<Self, PercentageError>)
        ensures
            match r {
                Ok(p) => percent <= 100 && p == Self::of(percent) && p.value() == percent,
                Err(_) => percent > 100,
            },
    {
        if percent <= 100 {
            Ok(IntegerPercentage { percent })
        } else {
            Err(PercentageError)
        }
    }

    /// The number of hundredths.
    pub fn into_inner(self) -> (r: u8)
        ensures
            r == self.value(),
            r <= 100,
    {
        proof {
            use_type_invariant(&self);
        }
        self.percent
    }

    /// The percentage as an exact fraction.
    pub fn fraction(self) -> (r: Fraction)
        ensures
            r == percent_fraction(self),
            r.num <= r.den,
    {
        Fraction { num: self.into_inner() as u64, den: 100 }
    }

    /// The larger of two percentages.
    pub fn max_of(self, other: Self) -> (r: Self)
        ensures
            r == larger_percentage(self, other),
    {
        if self.percent >= other.percent {
            self
        } else {
            other
        }
    }

    /// A percentage is known by its number of hundredths.
    pub proof fn lemma_same_value(a: Self, b: Self)
        requires
            a.value() == b.value(),
        ensures
            a == b,
    {
    }

    /// The percentage of a number of hundredths has that many.
    pub proof fn value_of_percentage(percent: u8)
        ensures
            Self::of(percent).value() == percent,
    {
    }
}

impl Default for IntegerPercentage {
    fn default() -> (r: Self)
        ensures
            r.value() == 0,
    {
        IntegerPercentage { percent: 0 }
    }
}

/// The larger of two percentages.
pub open spec fn larger_percentage(a: IntegerPercentage, b: IntegerPercentage) -> IntegerPercentage {
    if a.value() >= b.value() {
        a
    } else {
        b
    }
}

/// An exact fraction `num / den`.
#[derive(Debug, Clone, Copy, PartialEq, Eq, Structural)]
pub struct Fraction {
    pub num: u64,
    pub den: u128,
}

/// The fraction of a percentage.
pub open spec fn percent_fraction(p: IntegerPercentage) -> Fraction {
    Fraction { num: p.value() as u64, den: 100 }
}

/// The increase of a counter; none where it went down.
pub open spec fn increase(newer: u64, older: u64) -> u64 {
    if newer >= older {
        (newer - older) as u64
    } else {
        0
    }
}

/// The share of `time_delta_ms` that a counter of busy nanoseconds grew by;
/// none where no time has passed.
pub open spec fn ns_fraction(newer_ns: u64, older_ns: u64, time_delta_ms: u64) -> Option<Fraction> {
    if time_delta_ms == 0 {
        None
    } else {
        Some(
            Fraction {
                num: increase(newer_ns, older_ns),
                den: (time_delta_ms * 1_000_000) as u128,
            },
        )
    }
}

/// The share of all cycles that went into busy cycles; none where no cycle has
/// passed.
pub open spec fn cycles_fraction(
    newer_cycles: u64,
    older_cycles: u64,
    newer_total_cycles: u64,
    older_total_cycles: u64,
) -> Option<Fraction> {
    let total = increase(newer_total_cycles, older_total_cycles);
    if total == 0 {
        None
    } else {
        Some(Fraction { num: increase(newer_cycles, older_cycles), den: total as u128 })
    }
}

/// Whether `a` is at least as large as `b`.
pub open spec fn at_least(a: Fraction, b: Fraction) -> bool {
    a.num * b.den >= b.num * a.den
}

/// The larger of two fractions, or the one that is there.
pub open spec fn larger_fraction(a: Option<Fraction>, b: Option<Fraction>) -> Option<Fraction> {
    match (a, b) {
        (Some(x), Some(y)) => if at_least(x, y) {
            a
        } else {
            b
        },
        (Some(_), None) => a,
        (None, _) => b,
    }
}

/// The share of the elapsed milliseconds that a busy counter grew by.
pub fn ns_delta_to_usage_fraction(newer_ns: u64, older_ns: u64, time_delta_ms: u64) -> (r: Option<
    Fraction,
>)
    ensures
        r == ns_fraction(newer_ns, older_ns, time_delta_ms),
{
    if time_delta_ms == 0 {
        None
    } else {
        Some(
            Fraction {
                num: newer_ns.saturating_sub(older_ns),
                den: time_delta_ms as u128 * 1_000_000,
            },
        )
    }
}

/// The share of the elapsed cycles that were busy ones.
pub fn cycles_delta_to_usage_fraction(
    newer_cycles: u64,
    older_cycles: u64,
    newer_total_cycles: u64,
    older_total_cycles: u64,
) -> (r: Option<Fraction>)
    ensures
        r == cycles_fraction(newer_cycles, older_cycles, newer_total_cycles, older_total_cycles),
{
    let cycles: u64 = newer_cycles.saturating_sub(older_cycles);
    let total_cycles: u64 = newer_total_cycles.saturating_sub(older_total_cycles);
    if total_cycles == 0 {
        None
    } else {
        Some(Fraction { num: cycles, den: total_cycles as u128 })
    }
}

/// The larger of two fractions of machine counters, or the one that is there.
pub fn max_option(a: Option<Fraction>, b: Option<Fraction>) -> (r: Option<Fraction>)
    requires
        a matches Some(x) ==> x.den <= u64::MAX,
        b matches Some(y) ==> y.den <= u64::MAX,
    ensures
        r == larger_fraction(a, b),
{
    match (a, b) {
        (Some(x), Some(y)) => {
            proof {
                assert(x.num * y.den <= 0xffff_ffff_ffff_ffff * 0xffff_ffff_ffff_ffff)
                    by (nonlinear_arith)
                    requires
                        x.num <= 0xffff_ffff_ffff_ffff,
                        y.den <= 0xffff_ffff_ffff_ffff,
                ;
                assert(y.num * x.den <= 0xffff_ffff_ffff_ffff * 0xffff_ffff_ffff_ffff)
                    by (nonlinear_arith)
                    requires
                        y.num <= 0xffff_ffff_ffff_ffff,
                        x.den <= 0xffff_ffff_ffff_ffff,
                ;
            }
            if x.num as u128 * y.den >= y.num as u128 * x.den {
                a
            } else {
                b
            }
        },
        (Some(_), None) => a,
        (None, _) => b,
    }
}

/// The share of a time in which a counter of nanoseconds grew is that growth out of the
/// nanoseconds that have passed; a counter that went down has not grown.
pub proof fn share_of_elapsed_time(newer_ns: u64, older_ns: u64, time_delta_ms: u64)
    ensures
        time_delta_ms == 0 ==> ns_fraction(newer_ns, older_ns, time_delta_ms) is None,
        time_delta_ms > 0 ==> {
            &&& ns_fraction(newer_ns, older_ns, time_delta_ms) matches Some(f)
            &&& f.den == time_delta_ms * 1_000_000
            &&& newer_ns >= older_ns ==> f.num == newer_ns - older_ns
            &&& newer_ns < older_ns ==> f.num == 0
        },
{
    assert(time_delta_ms * 1_000_000 <= u128::MAX);
}

/// The share of cycles that were busy is the growth of the busy ones out of the growth of all.
pub proof fn share_of_elapsed_cycles(
    newer_cycles: u64,
    older_cycles: u64,
    newer_total_cycles: u64,
    older_total_cycles: u64,
)
    ensures
        ({
            let f = cycles_fraction(
                newer_cycles,
                older_cycles,
                newer_total_cycles,
                older_total_cycles,
            );
            &&& newer_total_cycles <= older_total_cycles ==> f is None
            &&& newer_total_cycles > older_total_cycles ==> {
                &&& f is Some
                &&& f->0.den == newer_total_cycles - older_total_cycles
                &&& newer_cycles >= older_cycles ==> f->0.num == newer_cycles - older_cycles
                &&& newer_cycles < older_cycles ==> f->0.num == 0
            }
        }),
{
}

/// The larger of two fractions is one of them, and neither is above it; with one missing it
/// is the other.
pub proof fn larger_fraction_is_a_bound(a: Option<Fraction>, b: Option<Fraction>)
    ensures
        larger_fraction(a, b) == a || larger_fraction(a, b) == b,
        a is None ==> larger_fraction(a, b) == b,
        b is None ==> larger_fraction(a, b) == a,
        a is Some && b is Some ==> {
            let r = larger_fraction(a, b)->0;
            &&& r.num * a->0.den >= a->0.num * r.den
            &&& r.num * b->0.den >= b->0.num * r.den
        },
{
}

/// The larger of two percentages is one of them, and neither is above it.
pub proof fn larger_percentage_is_a_bound(a: IntegerPercentage, b: IntegerPercentage)
    ensures
        larger_percentage(a, b) == a || larger_percentage(a, b) == b,
        larger_percentage(a, b).value() >= a.value(),
        larger_percentage(a, b).value() >= b.value(),
        percent_fraction(a).num == a.value(),
        percent_fraction(a).den == 100,
{
}

} // verus!
