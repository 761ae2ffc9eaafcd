//! Response-time samples.
//!
//! A sample is a non-negative span of time held as whole seconds plus a
//! sub-second nanosecond part, the same shape in which samples are persisted.
//! The weight kernel reads a sample as whole milliseconds, capped so that the
//! fixed-point logarithm stays in range.

use vstd::prelude::*;

verus! {

/// Nanoseconds in one second; the `nanos` field stays below this.
pub const NANOS_PER_SEC: u32 = 1_000_000_000;

/// Cap on the millisecond reading of a sample (about 31 years). Longer
/// samples are treated as this long.
pub const MAX_SAMPLE_MILLIS: u64 = 1_000_000_000_000;

/// A non-negative span of time: whole seconds plus nanoseconds below one
/// second.
#[derive(Clone, Copy, Debug, PartialEq, Eq, Structural)]
pub struct Sample {
    pub secs: u64,
    pub nanos: u32,
}

impl Sample {
    /// A sample is well formed when its nanosecond part is a proper
    /// sub-second remainder.
    pub open spec fn wf(self) -> bool {
        self.nanos < NANOS_PER_SEC
    }

    /// The sample's length in whole milliseconds (fractions truncated).
    pub open spec fn spec_millis(self) -> int {
        self.secs * 1000 + self.nanos / 1_000_000
    }

    /// The millisecond reading used by the weight kernel: whole milliseconds,
    /// capped at `MAX_SAMPLE_MILLIS`.
    pub open spec fn spec_clamped_millis(self) -> int {
        if self.spec_millis() > MAX_SAMPLE_MILLIS {
            MAX_SAMPLE_MILLIS as int
        } else {
            self.spec_millis()
        }
    }

    /// Builds a sample from seconds and a sub-second nanosecond part.
    pub fn new(secs: u64, nanos: u32) -> (r: Sample)
        requires
            nanos < NANOS_PER_SEC,
        ensures
            r == (Sample { secs, nanos }),
            r.wf(),
    {
        Sample { secs, nanos }
    }

    /// Builds a sample from whole milliseconds.
    pub fn from_millis(millis: u64) -> (r: Sample)
        ensures
            r.wf(),
            r.spec_millis() == millis,
    {
        let secs = millis / 1000;
        let rem = millis % 1000;
        let nanos = (rem as u32) * 1_000_000;
        proof {
            assert(secs * 1000 + rem == millis) by (nonlinear_arith)
                requires
                    secs == millis / 1000,
                    rem == millis % 1000,
            ;
            assert(nanos / 1_000_000 == rem) by (nonlinear_arith)
                requires
                    rem < 1000,
                    nanos == rem * 1_000_000,
            ;
        }
        Sample { secs, nanos }
    }

    /// The millisecond reading used by the weight kernel.
    pub fn clamped_millis(&self) -> (r: u64)
        requires
            self.wf(),
        ensures
            r == self.spec_clamped_millis(),
            r <= MAX_SAMPLE_MILLIS,
    {
        let sub_ms = (self.nanos / 1_000_000) as u64;
        if self.secs >= MAX_SAMPLE_MILLIS / 1000 {
            MAX_SAMPLE_MILLIS
        } else {
            let ms = self.secs * 1000 + sub_ms;
            if ms > MAX_SAMPLE_MILLIS {
                MAX_SAMPLE_MILLIS
            } else {
                ms
            }
        }
    }
}

/// Order on samples: shorter spans first, seconds before nanoseconds.
pub open spec fn sample_leq(a: Sample, b: Sample) -> bool {
    a.secs < b.secs || (a.secs == b.secs && a.nanos <= b.nanos)
}

/// Decides the order on two samples.
pub fn sample_leq_exec(a: &Sample, b: &Sample) -> (r: bool)
    ensures
        r == sample_leq(*a, *b),
{
    a.secs < b.secs || (a.secs == b.secs && a.nanos <= b.nanos)
}

} // verus!
