//! The fixed-timestep frame scheduler: a wall-clock accumulator deciding
//! how many simulation ticks occur in each poll cycle, decoupled from the
//! render cadence (a redraw is requested every poll cycle regardless).

use vstd::prelude::*;

verus! {

/// Nanoseconds per second. In fps-scaled units this is also one tick
/// quantum: 1/fps of a second.
pub const NANOS_PER_SEC: u64 = 1_000_000_000;

/// The fixed-timestep accumulator. Time is accounted in scaled units of
/// one nanosecond times the tick rate, so a tick quantum is exactly
/// `NANOS_PER_SEC` scaled units — 1/fps of a second, with no rounding.
pub struct Scheduler {
    /// Ticks per second.
    pub fps: u32,
    /// Accumulated time not yet consumed by ticks, in scaled units.
    pub accumulator: u64,
}

impl Scheduler {
    /// A positive rate, and a leftover always below one tick quantum.
    pub open spec fn wf(self) -> bool {
        &&& 0 < self.fps
        &&& self.accumulator < NANOS_PER_SEC
    }

    /// A scheduler with an empty accumulator.
    pub fn new(fps: u32) -> (r: Self)
        requires
            0 < fps,
        ensures
            r.wf(),
            r.fps == fps,
            r.accumulator == 0,
    {
        Scheduler { fps, accumulator: 0 }
    }

    /// Adds the elapsed wall-clock time and pays out as many whole ticks
    /// as the accumulated time now covers, subtracting one quantum per
    /// tick rather than resetting: the count is maximal and the fractional
    /// leftover — always less than one quantum — is preserved.
    pub fn advance(&mut self, elapsed_nanos: u64) -> (ticks: u64)
        requires
            old(self).wf(),
            old(self).accumulator + elapsed_nanos * old(self).fps <= u64::MAX,
        ensures
            final(self).wf(),
            final(self).fps == old(self).fps,
            ticks == (old(self).accumulator + elapsed_nanos * old(self).fps) / (
            NANOS_PER_SEC as int),
            final(self).accumulator == (old(self).accumulator + elapsed_nanos * old(self).fps) % (
            NANOS_PER_SEC as int),
    {
        let total = self.accumulator + elapsed_nanos * (self.fps as u64);
        let ticks = total / NANOS_PER_SEC;
        self.accumulator = total % NANOS_PER_SEC;
        ticks
    }
}

} // verus!
