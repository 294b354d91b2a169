use vstd::prelude::*;

use crate::bevy_api::{lib_built, new_schedule, no_steps, run_schedule, stages_of, systems_of};
use crate::policy::ScheduleType;
use bevy::ecs::schedule::Schedule;
use bevy::ecs::world::World;

verus! {

/// Why a run could not be carried out. All of these are configuration or
/// programming errors: the caller is expected to stop, not to retry.
#[derive(Debug, Copy, Clone, PartialEq, Eq, Structural)]
pub enum ScheduleError {
    /// A `Fixed` schedule was asked to run in a world with no clock resource.
    MissingClock,
    /// A `Fixed` schedule carries a zero period.
    InvalidRate,
    /// An owner slot that was detached from vanished before reattachment.
    OwnerVanished,
}

/// The elapsed time a run feeds into a `Fixed` policy holding `acc`
/// accumulated nanoseconds, given the clock reading `d`: the reading, capped
/// so the accumulator sum fits in a machine word and the reading itself in a
/// signed one.
pub open spec fn clamped_elapsed(d: u64, acc: u64) -> int {
    let capped: int = if d + acc > u64::MAX {
        u64::MAX - acc
    } else {
        d as int
    };
    if capped > i64::MAX {
        i64::MAX as int
    } else {
        capped
    }
}

/// A timing policy coupled with the pipeline it drives. The `PackedSchedule`
/// is responsible for actual execution; you probably won't need to touch this
/// directly.
pub struct PackedSchedule(pub ScheduleType, pub Schedule);

impl Default for PackedSchedule {
    /// An always-running instance with an empty pipeline.
    fn default() -> (r: Self)
        ensures
            r.0 == ScheduleType::Always,
            stages_of(r.1) == Seq::<Seq<char>>::empty(),
            systems_of(r.1) == no_steps(),
            lib_built(r.1),
    {
        PackedSchedule(ScheduleType::Always, new_schedule())
    }
}

impl PackedSchedule {
    /// A fresh instance carrying the given policy's parameters with a cleared
    /// accumulator and an empty pipeline: what an owner slot holds while the
    /// live instance is detached from it.
    pub fn dummy_for(policy: ScheduleType) -> (d: Self)
        ensures
            d.0 == policy.reset_spec(),
            stages_of(d.1) == Seq::<Seq<char>>::empty(),
            systems_of(d.1) == no_steps(),
            lib_built(d.1),
    {
        let reset = match policy {
            ScheduleType::Always => ScheduleType::Always,
            ScheduleType::Fixed(rate, _) => ScheduleType::Fixed(rate, 0),
        };
        PackedSchedule(reset, new_schedule())
    }

    /// A state-reset clone of this instance: same policy parameters, cleared
    /// accumulator, fresh empty pipeline.
    pub fn get_dummy(&self) -> (d: Self)
        ensures
            d.0 == self.0.reset_spec(),
            stages_of(d.1) == Seq::<Seq<char>>::empty(),
            systems_of(d.1) == no_steps(),
            lib_built(d.1),
    {
        Self::dummy_for(self.0)
    }

    /// Run the instance for one driver tick: feed the driver's clock reading
    /// into the policy and execute the pipeline once per due pass, in order,
    /// against the shared world. Returns how many passes ran.
    ///
    /// The driver reads the clock once per tick and hands the same reading to
    /// every instance. An `Always` policy runs exactly once and ignores the
    /// reading. A `Fixed` policy requires one and fails with `MissingClock`,
    /// touching nothing, when none is available.
    pub fn run(&mut self, elapsed: Option<u64>, world: &mut World) -> (r: Result<
        u64,
        ScheduleError,
    >)
        requires
            old(self).0.wf(),
        ensures
            final(self).0.wf(),
            stages_of(final(self).1) == stages_of(old(self).1),
            systems_of(final(self).1) == systems_of(old(self).1),
            lib_built(old(self).1) ==> lib_built(final(self).1),
            old(self).0 matches ScheduleType::Fixed(rate, _) ==> (final(self).0
                matches ScheduleType::Fixed(rate2, _) && rate2 == rate),
            r is Ok <==> (old(self).0 is Always || elapsed is Some),
            match r {
                Ok(n) => {
                    &&& (old(self).0 is Always ==> n == 1 && final(self).0 == old(self).0)
                    &&& (old(self).0 matches ScheduleType::Fixed(_, acc) ==> (
                        final(self).0,
                        n as int,
                    ) == old(self).0.advance_spec(clamped_elapsed(elapsed.unwrap(), acc)))
                },
                Err(err) => {
                    &&& err == ScheduleError::MissingClock
                    &&& old(self).0 is Fixed
                    &&& elapsed is None
                    &&& *final(self) == *old(self)
                    &&& *final(world) == *old(world)
                },
            },
    {
        let policy = self.0;
        match policy {
            ScheduleType::Always => {
                run_schedule(&mut self.1, world);
                Ok(1)
            },
            ScheduleType::Fixed(_, acc) => {
                match elapsed {
                    None => Err(ScheduleError::MissingClock),
                    Some(d) => {
                        // Clamp the reading so the accumulator sum fits; the
                        // policy is advanced by the clamped elapsed time.
                        let cap: u64 = u64::MAX - acc;
                        let d2: u64 = if d > cap {
                            cap
                        } else {
                            d
                        };
                        let clamped: i64 = if d2 > (i64::MAX as u64) {
                            i64::MAX
                        } else {
                            d2 as i64
                        };
                        proof {
                            assert(clamped as int == clamped_elapsed(d, acc));
                        }
                        let n = self.0.advance(clamped);
                        let ghost stages0 = stages_of(self.1);
                        let ghost systems0 = systems_of(self.1);
                        let ghost policy1 = self.0;
                        let ghost lb0 = lib_built(self.1);
                        let mut i: u64 = 0;
                        while i < n
                            invariant
                                i <= n,
                                stages_of(self.1) == stages0,
                                systems_of(self.1) == systems0,
                                self.0 == policy1,
                                lb0 ==> lib_built(self.1),
                            decreases n - i,
                        {
                            run_schedule(&mut self.1, world);
                            i = i + 1;
                        }
                        proof {
                            assert((self.0, n as int) == policy.advance_spec(clamped as int));
                        }
                        Ok(n)
                    },
                }
            },
        }
    }

    /// The progress fraction of the owned policy, as an exact pair
    /// `(numerator, denominator)` clamped to at most one.
    pub fn frame_percent(&self) -> (r: (u64, u64))
        requires
            self.0.wf(),
        ensures
            r == self.0.progress_spec(),
            0 < r.1,
            r.0 <= r.1,
    {
        self.0.frame_percent()
    }
}

} // verus!
