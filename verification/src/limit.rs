//! The removal limit policy.
//!
//! Given the current number of assigned jobs, a ruin operation removes
//! `clamp(round(threshold * size), min, max)` jobs, and never more than are
//! assigned.  The threshold is a fraction given in thousandths.

use vstd::prelude::*;

verus! {

/// Bounds on how many jobs one ruin call may remove.
pub struct RemovalLimit {
    /// Minimum number of removed jobs.
    pub min: usize,
    /// Maximum number of removed jobs.
    pub max: usize,
    /// Fraction of the current solution size to remove, in thousandths.
    pub threshold_permille: u32,
}

impl RemovalLimit {
    /// The invariant of the policy: `min <= max` and the threshold is a
    /// fraction of one.
    pub open spec fn wf(self) -> bool {
        &&& self.min <= self.max
        &&& self.threshold_permille <= 1000
    }

    pub fn new(min: usize, max: usize, threshold_permille: u32) -> (r: RemovalLimit)
        requires
            min <= max,
            threshold_permille <= 1000,
        ensures
            r == (RemovalLimit { min, max, threshold_permille }),
            r.wf(),
    {
        RemovalLimit { min, max, threshold_permille }
    }

    /// `round(threshold * size)` over the integers.
    pub open spec fn rounded(self, size: int) -> int {
        (self.threshold_permille * size + 500) / 1000
    }

    /// The number of jobs to remove for a solution of `size` assigned jobs:
    /// the rounded fraction clamped into `[min, max]`, and never more than
    /// `size`.
    pub open spec fn removal_count_spec(self, size: int) -> int {
        let c = if self.rounded(size) < self.min {
            self.min as int
        } else if self.rounded(size) > self.max {
            self.max as int
        } else {
            self.rounded(size)
        };
        if c > size {
            size
        } else {
            c
        }
    }

    /// Computes the removal count.  The result lies in `[min, max]` as long
    /// as at least `min` jobs are assigned, and never exceeds the number of
    /// assigned jobs.
    pub fn removal_count(&self, size: usize) -> (r: usize)
        requires
            self.wf(),
        ensures
            r == self.removal_count_spec(size as int),
            r <= self.max,
            r <= size,
            size >= self.min ==> self.min <= r,
    {
        let t: u128 = self.threshold_permille as u128;
        let sz: u128 = size as u128;
        proof {
            assert(t * sz <= 1000 * sz) by (nonlinear_arith)
                requires
                    t <= 1000,
            ;
            assert(1000 * sz + 500 < u128::MAX) by (nonlinear_arith)
                requires
                    sz <= 0xFFFF_FFFF_FFFF_FFFFu128,
            ;
            assert((1000 * sz as int + 500) / 1000 == sz as int);
            assert((t * sz + 500) / 1000 <= (1000 * sz + 500) / 1000);
        }
        let raw_wide: u128 = (t * sz + 500) / 1000;
        let raw = raw_wide as usize;
        let clamped = if raw < self.min {
            self.min
        } else if raw > self.max {
            self.max
        } else {
            raw
        };
        if clamped > size {
            size
        } else {
            clamped
        }
    }
}

} // verus!
