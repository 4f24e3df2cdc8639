//! Progress reports emitted by long-running operations.

use vstd::prelude::*;

verus! {

/// Scale of the fixed-point progress fraction: this value stands for a
/// fraction of one, that is, a finished operation.
pub const PROGRESS_SCALE: u64 = 10_000;

/// How much of a long-running operation is done: `current` units out of
/// `max`. `max == 0` means the total is unknown.
#[derive(Debug, Clone, Copy, PartialEq, Eq, Structural)]
pub struct Progress {
    pub current: u64,
    pub max: u64,
}

impl Progress {
    /// The fraction done, scaled so that `PROGRESS_SCALE` stands for one:
    /// between zero and `PROGRESS_SCALE` whenever the total is known, and
    /// exactly `-1` when it is not.
    pub open spec fn spec_fraction(self) -> int {
        if self.max == 0 {
            -1
        } else if self.current >= self.max {
            PROGRESS_SCALE as int
        } else {
            self.current * PROGRESS_SCALE / self.max as int
        }
    }

    /// Computes the scaled fraction done.
    pub fn fraction_scaled(self) -> (r: i64)
        ensures
            r == self.spec_fraction(),
            self.max == 0 ==> r == -1,
            self.max > 0 ==> 0 <= r <= PROGRESS_SCALE,
    {
        if self.max == 0 {
            -1
        } else if self.current >= self.max {
            PROGRESS_SCALE as i64
        } else {
            let num: u128 = (self.current as u128) * (PROGRESS_SCALE as u128);
            let q: u128 = num / (self.max as u128);
            proof {
                assert(q <= PROGRESS_SCALE) by (nonlinear_arith)
                    requires
                        self.max > 0,
                        self.current < self.max,
                        num == self.current * PROGRESS_SCALE,
                        q == num / (self.max as u128),
                {
                }
            }
            q as i64
        }
    }
}

} // verus!
