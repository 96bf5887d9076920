use vstd::prelude::*;
use crate::uniforms::ALPHA_ONE;

verus! {

/// Longest frame that is taken into account, in microseconds: three tenths
/// of a second. A longer stall counts as this long, so that it cannot pile
/// up ticks without bound.
pub const MAX_FRAME: u64 = 300_000;

/// Longest timestep this scheduler accepts, in microseconds.
pub const MAX_TIMESTEP: u64 = 1_000_000_000_000;

/// Default timestep: an eighth of a second, in microseconds.
pub const DEFAULT_TIMESTEP: u64 = 125_000;

/// Turns wall-clock frame times into whole simulation ticks plus an
/// interpolation factor. All times are in microseconds; `alpha` is in
/// millionths of a tick.
pub struct FixedTimestep {
    /// Time received and not yet consumed by a tick.
    pub accumulator: u64,
    /// Length of one tick.
    pub timestep: u64,
    /// Wall-clock time of the last frame.
    pub current_time: u64,
    /// `accumulator / timestep`, in millionths.
    pub alpha: u64,
    /// Simulated time: the ticks executed so far, times `timestep`.
    pub time: u64,
}

/// The interpolation factor, in millionths, for `acc` left over from ticks of
/// length `timestep`.
pub open spec fn alpha_of(acc: int, timestep: int) -> int {
    acc * ALPHA_ONE as int / timestep
}

impl FixedTimestep {
    pub open spec fn wf(&self) -> bool {
        &&& 0 < self.timestep <= MAX_TIMESTEP
        &&& self.accumulator < self.timestep
        &&& self.alpha == alpha_of(self.accumulator as int, self.timestep as int)
        &&& self.alpha < ALPHA_ONE
    }

    /// A scheduler at time zero with ticks of `timestep`.
    pub fn new(timestep: u64) -> (r: FixedTimestep)
        requires
            0 < timestep <= MAX_TIMESTEP,
        ensures
            r.wf(),
            r.timestep == timestep,
            r.accumulator == 0,
            r.current_time == 0,
            r.time == 0,
            r.alpha == 0,
    {
        FixedTimestep { accumulator: 0, timestep, current_time: 0, alpha: 0, time: 0 }
    }

    /// Adds `frame_time` to the accumulator and consumes as many whole ticks
    /// as it holds; returns their number and leaves the remainder, with
    /// `alpha` the fraction of a tick that it makes. Simulated time advances
    /// by the ticks consumed, and stops at the largest `u64`.
    pub fn schedule(&mut self, frame_time: u64) -> (ticks: u64)
        requires
            old(self).wf(),
        ensures
            final(self).wf(),
            ticks == (old(self).accumulator + frame_time) / old(self).timestep as int,
            final(self).accumulator == (old(self).accumulator + frame_time) % old(self).timestep as int,
            final(self).time == if old(self).time + ticks * old(self).timestep > u64::MAX {
                u64::MAX as int
            } else {
                old(self).time + ticks * old(self).timestep
            },
            final(self).alpha == alpha_of(final(self).accumulator as int, old(self).timestep as int),
            final(self).timestep == old(self).timestep,
            final(self).current_time == old(self).current_time,
    {
        let ts = self.timestep;
        let total: u128 = self.accumulator as u128 + frame_time as u128;
        let q: u128 = total / ts as u128;
        let r: u128 = total % ts as u128;
        proof {
            assert(total == q * ts + r) by (nonlinear_arith)
                requires ts > 0, q as int == total as int / (ts as int), r as int == total as int % (ts as int);
            if ts == 1 {
                assert(r == 0);
                assert(q == total) by (nonlinear_arith)
                    requires total == q * ts + r, ts == 1, r == 0;
                assert(self.accumulator == 0);
            } else {
                assert(q * 2 <= total) by (nonlinear_arith)
                    requires total == q * ts + r, ts >= 2, r >= 0, q >= 0;
            }
            assert(q <= u64::MAX);
            assert(q * ts <= total) by (nonlinear_arith)
                requires total == q * ts + r, r >= 0;
            assert(r * ALPHA_ONE < ts * ALPHA_ONE) by (nonlinear_arith)
                requires r < ts;
            assert(r * ALPHA_ONE / (ts as int) < ALPHA_ONE) by (nonlinear_arith)
                requires r * ALPHA_ONE < ts * ALPHA_ONE, ts > 0;
        }
        let elapsed: u128 = self.time as u128 + q * ts as u128;
        self.time = if elapsed > u64::MAX as u128 {
            u64::MAX
        } else {
            elapsed as u64
        };
        self.accumulator = r as u64;
        self.alpha = self.accumulator * ALPHA_ONE / ts;
        q as u64
    }

    /// The frame time for a frame at wall-clock time `now`: the time since
    /// the last frame, capped at `MAX_FRAME`, zero if the clock went back.
    pub open spec fn frame_time(&self, now: u64) -> int {
        if now <= self.current_time {
            0
        } else if now - self.current_time > MAX_FRAME {
            MAX_FRAME as int
        } else {
            now - self.current_time
        }
    }

    /// Records a frame at wall-clock time `now` and schedules the ticks that
    /// are due; returns their number.
    pub fn advance(&mut self, now: u64) -> (ticks: u64)
        requires
            old(self).wf(),
        ensures
            final(self).wf(),
            final(self).current_time == now,
            ticks == (old(self).accumulator + old(self).frame_time(now)) / old(self).timestep as int,
            final(self).accumulator == (old(self).accumulator + old(self).frame_time(now))
                % old(self).timestep as int,
            final(self).time == if old(self).time + ticks * old(self).timestep > u64::MAX {
                u64::MAX as int
            } else {
                old(self).time + ticks * old(self).timestep
            },
            final(self).alpha == alpha_of(final(self).accumulator as int, old(self).timestep as int),
            final(self).timestep == old(self).timestep,
    {
        let frame_time: u64 = if now <= self.current_time {
            0
        } else if now - self.current_time > MAX_FRAME {
            MAX_FRAME
        } else {
            now - self.current_time
        };
        self.current_time = now;
        self.schedule(frame_time)
    }
}

impl Default for FixedTimestep {
    fn default() -> (r: FixedTimestep)
        ensures
            r.wf(),
            r.timestep == DEFAULT_TIMESTEP,
            r.accumulator == 0,
            r.current_time == 0,
            r.time == 0,
            r.alpha == 0,
    {
        FixedTimestep::new(DEFAULT_TIMESTEP)
    }
}

/// Scheduling leaves a non-negative accumulator below one tick and `alpha` in
/// `[0, 1)`, and runs exactly the ticks that the accumulated time holds.
pub proof fn lemma_schedule_law(acc: int, frame_time: int, timestep: int)
    requires
        0 <= acc < timestep,
        0 <= frame_time,
        0 < timestep <= MAX_TIMESTEP,
    ensures
        0 <= (acc + frame_time) % timestep < timestep,
        0 <= alpha_of((acc + frame_time) % timestep, timestep) < ALPHA_ONE,
        ((acc + frame_time) / timestep) * timestep + (acc + frame_time) % timestep == acc + frame_time,
{
    let r = (acc + frame_time) % timestep;
    assert(0 <= r < timestep);
    assert(r * ALPHA_ONE < timestep * ALPHA_ONE) by (nonlinear_arith)
        requires 0 <= r < timestep;
    assert(0 <= r * ALPHA_ONE / timestep < ALPHA_ONE) by (nonlinear_arith)
        requires r * ALPHA_ONE < timestep * ALPHA_ONE, timestep > 0, r >= 0;
    assert(((acc + frame_time) / timestep) * timestep + r == acc + frame_time) by (nonlinear_arith)
        requires timestep > 0, r == (acc + frame_time) % timestep;
}

} // verus!
