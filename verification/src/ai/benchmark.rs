//! Bookkeeping for timing measurements: the spans measured, their sum,
//! their extremes and their mean.

use vstd::prelude::*;

verus! {

/// The longest span that can be held, in nanoseconds: one nanosecond short of
/// 2^64 seconds.
pub const MAX_NANOS: u128 = 18_446_744_073_709_551_615_999_999_999;

/// A span of time, held in nanoseconds.
#[derive(Debug, Clone, Copy, PartialEq, Eq, PartialOrd, Ord)]
pub struct TimeSpan {
    nanos: u128,
}

impl View for TimeSpan {
    type V = nat;

    /// The span in nanoseconds.
    closed spec fn view(&self) -> nat {
        self.nanos as nat
    }
}

impl TimeSpan {
    #[verifier::type_invariant]
    spec fn in_range(&self) -> bool {
        self.nanos <= MAX_NANOS
    }

    /// No time at all.
    pub fn zero() -> (span: Self)
        ensures
            span@ == 0,
    {
        TimeSpan { nanos: 0 }
    }

    /// The longest span.
    pub fn max() -> (span: Self)
        ensures
            span@ == MAX_NANOS,
    {
        TimeSpan { nanos: MAX_NANOS }
    }

    /// A span of `nanos` nanoseconds, which may be no more than the longest
    /// span has.
    pub fn from_nanos(nanos: u128) -> (span: Self)
        requires
            nanos <= MAX_NANOS,
        ensures
            span@ == nanos,
    {
        TimeSpan { nanos }
    }

    /// A span of `micros` microseconds.
    pub fn from_micros(micros: u64) -> (span: Self)
        ensures
            span@ == micros * 1_000,
    {
        TimeSpan { nanos: (micros as u128) * 1_000 }
    }

    /// A span of `millis` milliseconds.
    pub fn from_millis(millis: u64) -> (span: Self)
        ensures
            span@ == millis * 1_000_000,
    {
        TimeSpan { nanos: (millis as u128) * 1_000_000 }
    }

    /// A span of `secs` seconds.
    pub fn from_secs(secs: u64) -> (span: Self)
        ensures
            span@ == secs * 1_000_000_000,
    {
        TimeSpan { nanos: (secs as u128) * 1_000_000_000 }
    }

    /// The span in nanoseconds.
    pub fn as_nanos(&self) -> (nanos: u128)
        ensures
            nanos == self@,
            nanos <= MAX_NANOS,
    {
        proof {
            use_type_invariant(self);
        }
        self.nanos
    }

    /// The span in whole microseconds.
    pub fn as_micros(&self) -> (micros: u128)
        ensures
            micros == self@ / 1_000,
    {
        self.nanos / 1_000
    }

    /// The span in whole milliseconds.
    pub fn as_millis(&self) -> (millis: u128)
        ensures
            millis == self@ / 1_000_000,
    {
        self.nanos / 1_000_000
    }

    /// Whether the span is no time at all.
    pub fn is_zero(&self) -> (yes: bool)
        ensures
            yes == (self@ == 0),
    {
        self.nanos == 0
    }

    /// This span less `other`, and no time at all where `other` is the
    /// longer one.
    pub fn saturating_sub(&self, other: TimeSpan) -> (span: Self)
        ensures
            span@ == if self@ >= other@ {
                self@ - other@
            } else {
                0
            },
    {
        proof {
            use_type_invariant(self);
        }
        if self.nanos >= other.nanos {
            TimeSpan { nanos: self.nanos - other.nanos }
        } else {
            TimeSpan { nanos: 0 }
        }
    }
}

/// What a series of measurements comes to.
#[derive(Debug, Clone, Copy, PartialEq)]
pub struct PerformanceMetrics {
    /// The sum of the spans measured.
    pub total_duration: TimeSpan,
    /// How many spans were measured.
    pub operations: usize,
    /// The mean of the spans measured, in whole nanoseconds.
    pub avg_per_op: TimeSpan,
    /// The shortest span measured; the longest span there is before any.
    pub min_time: TimeSpan,
    /// The longest span measured.
    pub max_time: TimeSpan,
}

impl PerformanceMetrics {
    /// The metrics before any measurement.
    pub fn new() -> (metrics: Self)
        ensures
            metrics.total_duration@ == 0,
            metrics.operations == 0,
            metrics.avg_per_op@ == 0,
            metrics.min_time@ == MAX_NANOS,
            metrics.max_time@ == 0,
    {
        PerformanceMetrics {
            total_duration: TimeSpan::zero(),
            operations: 0,
            avg_per_op: TimeSpan::zero(),
            min_time: TimeSpan::max(),
            max_time: TimeSpan::zero(),
        }
    }

    /// Takes one more span in. The sum must stay within the longest span,
    /// and the count within 32 bits.
    pub fn record(&mut self, duration: TimeSpan)
        requires
            old(self).total_duration@ + duration@ <= MAX_NANOS,
            old(self).operations < u32::MAX,
        ensures
            final(self).total_duration@ == old(self).total_duration@ + duration@,
            final(self).operations == old(self).operations + 1,
            final(self).avg_per_op@ == final(self).total_duration@ / (
            final(self).operations as nat),
            final(self).min_time@ == if duration@ < old(self).min_time@ {
                duration@
            } else {
                old(self).min_time@
            },
            final(self).max_time@ == if duration@ > old(self).max_time@ {
                duration@
            } else {
                old(self).max_time@
            },
    {
        let span = duration.as_nanos();
        let total: u128 = self.total_duration.as_nanos() + span;
        let count: usize = self.operations + 1;
        let least: u128 = self.min_time.as_nanos();
        let most: u128 = self.max_time.as_nanos();
        let mean: u128 = total / (count as u128);
        assert(mean <= total) by (nonlinear_arith)
            requires
                mean == total as int / count as int,
                count >= 1,
                total >= 0,
        ;
        self.total_duration = TimeSpan::from_nanos(total);
        self.operations = count;
        self.min_time = TimeSpan::from_nanos(if span < least {
            span
        } else {
            least
        });
        self.max_time = TimeSpan::from_nanos(if span > most {
            span
        } else {
            most
        });
        self.avg_per_op = TimeSpan::from_nanos(mean);
    }

    /// The mean of the spans measured, in whole microseconds.
    pub fn avg_micros(&self) -> (micros: u128)
        ensures
            micros == self.avg_per_op@ / 1_000,
    {
        self.avg_per_op.as_micros()
    }
}

impl Default for PerformanceMetrics {
    fn default() -> (metrics: Self)
        ensures
            metrics.total_duration@ == 0,
            metrics.operations == 0,
            metrics.avg_per_op@ == 0,
            metrics.min_time@ == MAX_NANOS,
            metrics.max_time@ == 0,
    {
        PerformanceMetrics::new()
    }
}

/// The metrics of two implementations of one task, side by side.
#[derive(Debug, Clone, Copy, PartialEq)]
pub struct BenchmarkResult {
    pub baseline_metrics: PerformanceMetrics,
    pub optimized_metrics: PerformanceMetrics,
}

impl BenchmarkResult {
    /// By how much the mean of the optimized implementation is shorter than
    /// that of the baseline; no time at all where it is not shorter.
    pub fn time_saved_per_op(&self) -> (saved: TimeSpan)
        ensures
            saved@ == if self.baseline_metrics.avg_per_op@ >= self.optimized_metrics.avg_per_op@ {
                self.baseline_metrics.avg_per_op@ - self.optimized_metrics.avg_per_op@
            } else {
                0
            },
    {
        self.baseline_metrics.avg_per_op.saturating_sub(self.optimized_metrics.avg_per_op)
    }
}

} // verus!
