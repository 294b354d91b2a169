use vstd::prelude::*;

use crate::bevy_api::{
    delta_nanos_of, entity_policy, entity_stages, entity_systems, global_policy, global_stages,
    global_systems, has_time, lib_built, new_schedule, no_steps, peek_global, peek_runner,
    read_delta_nanos, restore_global, restore_runner, runner_entities, schedule_add_stage,
    stages_of, swap_global, swap_runner, systems_of,
};
use crate::packed::{clamped_elapsed, PackedSchedule, ScheduleError};
use crate::policy::ScheduleType;
use bevy::ecs::entity::Entity;
use bevy::ecs::world::World;
use vstd::arithmetic::div_mod::lemma_div_non_zero;
use vstd::pervasive::unreached;

verus! {

/// The conventional ordered stage sequence every runner is built with.
pub open spec fn canonical_stages() -> Seq<Seq<char>> {
    seq![
        "first"@,
        "pre_event"@,
        "event"@,
        "pre_update"@,
        "update"@,
        "post_update"@,
        "last"@,
    ]
}

/// The step counts of a freshly built runner: the conventional stages, each
/// with no steps registered yet.
pub open spec fn canonical_systems() -> Map<Seq<char>, nat> {
    no_steps().insert("first"@, 0).insert("pre_event"@, 0).insert(
        "event"@,
        0,
    ).insert("pre_update"@, 0).insert("update"@, 0).insert("post_update"@, 0).insert("last"@, 0)
}

proof fn lemma_push_not_contains<A>(s: Seq<A>, x: A, y: A)
    requires
        !s.contains(y),
        x != y,
    ensures
        !s.push(x).contains(y),
{
    assert forall|i: int| 0 <= i < s.push(x).len() implies s.push(x)[i] != y by {
        if i < s.len() {
            assert(s.push(x)[i] == s[i]);
            assert(!s.contains(y));
        }
    }
}

/// Holds a schedule instance for use as a bevy resource or component. The
/// driver system finds every installed `ScheduleRunner` on each tick and runs
/// it through the detach/run/reattach protocol.
pub struct ScheduleRunner(pub PackedSchedule);

impl Default for ScheduleRunner {
    /// An always-running runner with the conventional stages.
    fn default() -> (r: Self)
        ensures
            r.0.0 == ScheduleType::Always,
            stages_of(r.0.1) == canonical_stages(),
            systems_of(r.0.1) == canonical_systems(),
            lib_built(r.0.1),
    {
        let r = ScheduleRunner(PackedSchedule::default()).add_default_stages();
        proof {
            assert(Seq::<Seq<char>>::empty() + canonical_stages() =~= canonical_stages());
            assert(systems_of(r.0.1) =~= canonical_systems());
        }
        r
    }
}

impl ScheduleRunner {
    /// A fixed-rate runner that runs every `rate` nanoseconds.
    pub fn from_rate(rate: u64) -> (r: Self)
        requires
            rate > 0,
        ensures
            r.0.0 == ScheduleType::Fixed(rate, 0),
            stages_of(r.0.1) == canonical_stages(),
            systems_of(r.0.1) == canonical_systems(),
            lib_built(r.0.1),
    {
        let r = ScheduleRunner(
            PackedSchedule(ScheduleType::Fixed(rate, 0), new_schedule()),
        ).add_default_stages();
        proof {
            assert(Seq::<Seq<char>>::empty() + canonical_stages() =~= canonical_stages());
            assert(systems_of(r.0.1) =~= canonical_systems());
        }
        r
    }

    /// A fixed-rate runner that runs `per_second` times per second: its period
    /// is the whole number of nanoseconds `1_000_000_000 / per_second`.
    pub fn from_rate_inv(per_second: u64) -> (r: Self)
        requires
            1 <= per_second <= 1_000_000_000,
        ensures
            r.0.0 matches ScheduleType::Fixed(rate, acc) && acc == 0 && rate == 1_000_000_000 as int
                / per_second as int,
            stages_of(r.0.1) == canonical_stages(),
            systems_of(r.0.1) == canonical_systems(),
            lib_built(r.0.1),
    {
        proof {
            lemma_div_non_zero(1_000_000_000, per_second as int);
        }
        let rate: u64 = 1_000_000_000 / per_second;
        Self::from_rate(rate)
    }

    /// Append the conventional stage sequence to the runner's pipeline.
    pub fn add_default_stages(self) -> (r: Self)
        requires
            lib_built(self.0.1),
            !stages_of(self.0.1).contains("first"@),
            !stages_of(self.0.1).contains("pre_event"@),
            !stages_of(self.0.1).contains("event"@),
            !stages_of(self.0.1).contains("pre_update"@),
            !stages_of(self.0.1).contains("update"@),
            !stages_of(self.0.1).contains("post_update"@),
            !stages_of(self.0.1).contains("last"@),
        ensures
            r.0.0 == self.0.0,
            stages_of(r.0.1) == stages_of(self.0.1) + canonical_stages(),
            systems_of(r.0.1) == systems_of(self.0.1).insert("first"@, 0).insert(
                "pre_event"@,
                0,
            ).insert("event"@, 0).insert("pre_update"@, 0).insert("update"@, 0).insert(
                "post_update"@,
                0,
            ).insert("last"@, 0),
            lib_built(r.0.1),
    {
        let ghost base = stages_of(self.0.1);
        proof {
            reveal_strlit("first");
            reveal_strlit("pre_event");
            reveal_strlit("event");
            reveal_strlit("pre_update");
            reveal_strlit("update");
            reveal_strlit("post_update");
            reveal_strlit("last");
            assert("first"@.len() == 5);
            assert("pre_event"@.len() == 9);
            assert("event"@.len() == 5);
            assert("pre_update"@.len() == 10);
            assert("update"@.len() == 6);
            assert("post_update"@.len() == 11);
            assert("last"@.len() == 4);
            assert("first"@ != "event"@) by {
                assert("first"@[0] == 'f');
                assert("event"@[0] == 'e');
            }
            lemma_push_not_contains(base, "first"@, "pre_event"@);
            lemma_push_not_contains(base, "first"@, "event"@);
            lemma_push_not_contains(base.push("first"@), "pre_event"@, "event"@);
            lemma_push_not_contains(base, "first"@, "pre_update"@);
            lemma_push_not_contains(base.push("first"@), "pre_event"@, "pre_update"@);
            lemma_push_not_contains(base.push("first"@).push("pre_event"@), "event"@, "pre_update"@);
            lemma_push_not_contains(base, "first"@, "update"@);
            lemma_push_not_contains(base.push("first"@), "pre_event"@, "update"@);
            lemma_push_not_contains(base.push("first"@).push("pre_event"@), "event"@, "update"@);
            lemma_push_not_contains(base.push("first"@).push("pre_event"@).push("event"@), "pre_update"@, "update"@);
            lemma_push_not_contains(base, "first"@, "post_update"@);
            lemma_push_not_contains(base.push("first"@), "pre_event"@, "post_update"@);
            lemma_push_not_contains(base.push("first"@).push("pre_event"@), "event"@, "post_update"@);
            lemma_push_not_contains(base.push("first"@).push("pre_event"@).push("event"@), "pre_update"@, "post_update"@);
            lemma_push_not_contains(base.push("first"@).push("pre_event"@).push("event"@).push("pre_update"@), "update"@, "post_update"@);
            lemma_push_not_contains(base, "first"@, "last"@);
            lemma_push_not_contains(base.push("first"@), "pre_event"@, "last"@);
            lemma_push_not_contains(base.push("first"@).push("pre_event"@), "event"@, "last"@);
            lemma_push_not_contains(base.push("first"@).push("pre_event"@).push("event"@), "pre_update"@, "last"@);
            lemma_push_not_contains(base.push("first"@).push("pre_event"@).push("event"@).push("pre_update"@), "update"@, "last"@);
            lemma_push_not_contains(base.push("first"@).push("pre_event"@).push("event"@).push("pre_update"@).push("update"@), "post_update"@, "last"@);
        }
        let mut r = self;
        r = r.add_stage("first");
        r = r.add_stage("pre_event");
        r = r.add_stage("event");
        r = r.add_stage("pre_update");
        r = r.add_stage("update");
        r = r.add_stage("post_update");
        r = r.add_stage("last");
        proof {
            assert(stages_of(r.0.1) =~= base + canonical_stages());
        }
        r
    }

    /// Append one fresh stage under the given label. The label must be new:
    /// bevy panics on a duplicate stage label.
    pub fn add_stage(self, stage_name: &'static str) -> (r: Self)
        requires
            lib_built(self.0.1),
            !stages_of(self.0.1).contains(stage_name@),
        ensures
            r.0.0 == self.0.0,
            stages_of(r.0.1) == stages_of(self.0.1).push(stage_name@),
            systems_of(r.0.1) == systems_of(self.0.1).insert(stage_name@, 0),
            lib_built(r.0.1),
    {
        let mut s = self;
        schedule_add_stage(&mut (s.0).1, stage_name);
        s
    }

    /// Relies on bevy's `Schedule::add_system_to_stage`: registers the step in
    /// the conventional update stage - its step count rises by one - leaving
    /// the stage list and the policy as they were. The pipeline must be one
    /// this library built and must carry an update stage: bevy panics on a
    /// missing label or on a stage that is not a system stage.
    #[verifier::external_body]
    pub fn add_system<S: Into<bevy::ecs::schedule::SystemDescriptor>>(self, system: S) -> (r: Self)
        requires
            lib_built(self.0.1),
            stages_of(self.0.1).contains("update"@),
        ensures
            r.0.0 == self.0.0,
            stages_of(r.0.1) == stages_of(self.0.1),
            systems_of(r.0.1) == systems_of(self.0.1).insert(
                "update"@,
                systems_of(self.0.1)["update"@] + 1,
            ),
            lib_built(r.0.1),
    {
        let mut s = self;
        s.0 .1.add_system_to_stage("update", system);
        s
    }

    /// The progress fraction of the owned policy, as an exact pair
    /// `(numerator, denominator)` clamped to at most one.
    pub fn frame_percent(&self) -> (r: (u64, u64))
        requires
            self.0.0.wf(),
        ensures
            r == self.0.0.progress_spec(),
            0 < r.1,
            r.0 <= r.1,
    {
        self.0.frame_percent()
    }
}

/// Detach/run/reattach at the policy level: the dummy left in an owner's slot
/// keeps the configured parameters with a cleared accumulator, and the policy
/// reattached after a run keeps the configured parameters with exactly the
/// post-advance accumulator.
pub proof fn lemma_detach_run_reattach(p: ScheduleType, e: int)
    requires
        p.wf(),
        0 <= e,
    ensures
        p.reset_spec().wf(),
        p is Always ==> p.reset_spec() == p,
        p matches ScheduleType::Fixed(rate, _) ==> p.reset_spec() == ScheduleType::Fixed(rate, 0),
        ({
            let (p2, n) = p.advance_spec(e);
            &&& p2.wf()
            &&& (p is Always ==> p2 == p && n == 1)
            &&& (p matches ScheduleType::Fixed(rate, _) ==> p2 matches ScheduleType::Fixed(
                rate2,
                _,
            ) && rate2 == rate)
        }),
{
    if let ScheduleType::Fixed(rate, acc) = p {
        if e > 0 {
            vstd::arithmetic::div_mod::lemma_mod_division_less_than_divisor(acc + e, rate as int);
        }
    }
}

/// Some owner present in `w0` has no slot left in `w1`.
pub open spec fn owner_vanished(w0: World, w1: World) -> bool {
    ||| (global_policy(w0) is Some && global_policy(w1) is None)
    ||| (exists|e: Entity| #[trigger] entity_policy(w0, e) is Some && entity_policy(w1, e) is None)
}

/// Some installed owner carries a fixed policy with a zero period.
pub open spec fn has_zero_rate_owner(w: World) -> bool {
    ||| (global_policy(w) matches Some(p) && p matches ScheduleType::Fixed(rate, _) && rate == 0)
    ||| (exists|e: Entity|
        #[trigger] entity_policy(w, e) matches Some(p) && p matches ScheduleType::Fixed(rate, _)
            && rate == 0)
}

/// Some installed owner carries a fixed-rate policy.
pub open spec fn has_fixed_owner(w: World) -> bool {
    ||| (global_policy(w) matches Some(p) && p is Fixed)
    ||| (exists|e: Entity| #[trigger] entity_policy(w, e) matches Some(p) && p is Fixed)
}

/// The policy an owner holds after one driver tick over world `w0`:
/// unchanged for `Always`; advanced by the tick's (clamped) clock reading for
/// `Fixed`.
pub open spec fn ticked_policy(p: ScheduleType, w0: World) -> ScheduleType {
    match p {
        ScheduleType::Always => p,
        ScheduleType::Fixed(_, acc) => p.advance_spec(
            clamped_elapsed(delta_nanos_of(w0), acc),
        ).0,
    }
}

/// Every owner present in `w0` is present in `w1`, holding exactly the policy
/// that one advance by the tick's clock reading produces: pass counts and
/// accumulators are functions of each owner's own policy and the one reading.
pub open spec fn owners_ticked(w0: World, w1: World) -> bool {
    &&& (global_policy(w0) matches Some(p) ==> global_policy(w1) == Some(ticked_policy(p, w0)))
    &&& (forall|e: Entity|
        entity_policy(w0, e) matches Some(p) ==> #[trigger] entity_policy(w1, e) == Some(
            ticked_policy(p, w0),
        ))
}

/// Every owner present in `w0` holds a pipeline with the same stage labels
/// and the same per-stage step counts in `w1` as it held in `w0`: registered
/// stages and steps survive the tick.
pub open spec fn owners_keep_pipelines(w0: World, w1: World) -> bool {
    &&& (global_policy(w0) is Some ==> global_stages(w1) == global_stages(w0))
    &&& (global_policy(w0) is Some ==> global_systems(w1) == global_systems(w0))
    &&& (forall|e: Entity|
        entity_policy(w0, e) is Some ==> #[trigger] entity_stages(w1, e) == entity_stages(w0, e))
    &&& (forall|e: Entity|
        entity_policy(w0, e) is Some ==> #[trigger] entity_systems(w1, e) == entity_systems(
            w0,
            e,
        ))
}

/// Every owner slot, its pipeline projections, and the clock's presence read
/// the same in `w1` as in `w0`.
pub open spec fn owners_unchanged(w0: World, w1: World) -> bool {
    &&& global_policy(w1) == global_policy(w0)
    &&& global_stages(w1) == global_stages(w0)
    &&& global_systems(w1) == global_systems(w0)
    &&& has_time(w1) == has_time(w0)
    &&& (forall|e: Entity| #[trigger] entity_policy(w1, e) == entity_policy(w0, e))
    &&& (forall|e: Entity| #[trigger] entity_stages(w1, e) == entity_stages(w0, e))
    &&& (forall|e: Entity| #[trigger] entity_systems(w1, e) == entity_systems(w0, e))
}

/// Execute every installed runner exactly once for this driver tick, by the
/// detach/run/reattach protocol: the clock is read once; every owner slot
/// (the global resource if one is registered, and every entity carrying a
/// runner component) is swapped against a fresh dummy; the detached instances
/// are run against the now-unencumbered world with that one reading, the
/// global one first; then every instance is swapped back into the slot it
/// came from. Order across owners carries no meaning; the passes within one
/// owner are strictly sequential.
///
/// Errors are configuration or programming errors and are surfaced rather
/// than swallowed, each before anything is touched where possible: a zero
/// period anywhere, then a missing clock under any fixed-rate owner, are
/// reported with the world left as found; an owner slot that a registered
/// step removed mid-tick is reported as `OwnerVanished` after every surviving
/// slot has been reattached.
#[verifier::loop_isolation(false)]
#[verifier::rlimit(100)]
pub fn schedule_runner_system(world: &mut World) -> (r: Result<(), ScheduleError>)
    ensures
        (global_policy(*old(world)) is None && (forall|e: Entity|
            #[trigger] entity_policy(*old(world), e) is None)) ==> (r is Ok && owners_unchanged(
            *old(world),
            *final(world),
        )),
        (r == Err::<(), ScheduleError>(ScheduleError::InvalidRate)) <==> has_zero_rate_owner(
            *old(world),
        ),
        r == Err::<(), ScheduleError>(ScheduleError::InvalidRate) ==> owners_unchanged(
            *old(world),
            *final(world),
        ),
        (r == Err::<(), ScheduleError>(ScheduleError::MissingClock)) <==> (!has_zero_rate_owner(
            *old(world),
        ) && has_fixed_owner(*old(world)) && !has_time(*old(world))),
        r == Err::<(), ScheduleError>(ScheduleError::MissingClock) ==> owners_unchanged(
            *old(world),
            *final(world),
        ),
        (r == Err::<(), ScheduleError>(ScheduleError::OwnerVanished)) <==> owner_vanished(
            *old(world),
            *final(world),
        ),
        r is Ok ==> owners_ticked(*old(world), *final(world)),
        r is Ok ==> owners_keep_pipelines(*old(world), *final(world)),
{
    // One clock reading per driver tick, handed to every instance.
    let clock = read_delta_nanos(world);
    // ---- validate every owner's policy, touching nothing ----
    let global_p = peek_global(world);
    let mut saw_fixed: bool = false;
    match global_p {
        Some(ScheduleType::Fixed(grate, _)) => {
            if grate == 0 {
                return Err(ScheduleError::InvalidRate);
            }
            saw_fixed = true;
        },
        _ => {},
    }
    proof {
        assert(!(global_policy(*old(world)) matches Some(pp) && pp matches ScheduleType::Fixed(
            rr,
            _,
        ) && rr == 0));
    }
    let ents = runner_entities(world);
    let ghost w1: World = *world;
    proof {
        assert forall|j: int| 0 <= j < ents@.len() implies #[trigger] entity_policy(
            *old(world),
            ents@[j],
        ) is Some by {
            assert(ents@.contains(ents@[j]));
        }
    }
    let mut policies: Vec<ScheduleType> = Vec::new();
    let ghost mut fixed_at: int = 0;
    let mut i: usize = 0;
    while i < ents.len()
        invariant
            i <= ents@.len(),
            policies@.len() == i,
            *world == w1,
            forall|j: int|
                0 <= j < i ==> Some(#[trigger] policies@[j]) == entity_policy(
                    *old(world),
                    ents@[j],
                ),
            forall|j: int| 0 <= j < i ==> (#[trigger] policies@[j]).wf(),
            saw_fixed ==> ((global_policy(*old(world)) matches Some(gp) && gp is Fixed) || (0
                <= fixed_at < i && policies@[fixed_at] is Fixed)),
            !saw_fixed ==> !(global_policy(*old(world)) matches Some(gp2) && gp2 is Fixed),
            !saw_fixed ==> (forall|j: int|
                0 <= j < i ==> !((#[trigger] policies@[j]) is Fixed)),
        decreases ents@.len() - i,
    {
        let e = ents[i];
        match peek_runner(world, e) {
            Some(p) => {
                match p {
                    ScheduleType::Fixed(rate2, _) => {
                        if rate2 == 0 {
                            proof {
                                assert(entity_policy(*old(world), ents@[i as int]) == Some(p));
                            }
                            return Err(ScheduleError::InvalidRate);
                        }
                        saw_fixed = true;
                        proof {
                            fixed_at = i as int;
                        }
                    },
                    ScheduleType::Always => {},
                }
                let ghost pols0 = policies@;
                policies.push(p);
                proof {
                    assert forall|j: int| 0 <= j < pols0.len() implies #[trigger] policies@[j]
                        == pols0[j] by {}
                    assert(policies@[pols0.len() as int] == p);
                }
            },
            None => {
                return unreached();
            },
        }
        i = i + 1;
    }
    // Every owner has now been seen: none carries a zero period, and
    // `saw_fixed` says exactly whether any carries a fixed rate.
    proof {
        assert forall|e: Entity|
            !(#[trigger] entity_policy(*old(world), e) matches Some(pp) && pp
                matches ScheduleType::Fixed(rr, _) && rr == 0) by {
            if entity_policy(*old(world), e) is Some {
                assert(ents@.contains(e));
                let j = choose|j: int| 0 <= j < ents@.len() && ents@[j] == e;
                assert(Some(policies@[j]) == entity_policy(*old(world), ents@[j]));
                assert(policies@[j].wf());
            }
        }
        assert(!has_zero_rate_owner(*old(world)));
        if saw_fixed {
            if !(global_policy(*old(world)) matches Some(gp) && gp is Fixed) {
                assert(Some(policies@[fixed_at]) == entity_policy(*old(world), ents@[fixed_at]));
            }
            assert(has_fixed_owner(*old(world)));
        } else {
            assert forall|e: Entity|
                !(#[trigger] entity_policy(*old(world), e) matches Some(pp) && pp is Fixed) by {
                if entity_policy(*old(world), e) is Some {
                    assert(ents@.contains(e));
                    let j = choose|j: int| 0 <= j < ents@.len() && ents@[j] == e;
                    assert(Some(policies@[j]) == entity_policy(*old(world), ents@[j]));
                }
            }
            assert(!has_fixed_owner(*old(world)));
        }
        assert(saw_fixed == has_fixed_owner(*old(world)));
    }
    // ---- a fixed-rate owner with no clock: report before touching anything ----
    if clock.is_none() {
        if saw_fixed {
            return Err(ScheduleError::MissingClock);
        }
    }
    if ents.len() == 0 {
        match global_p {
            None => {
                proof {
                    assert forall|e: Entity| #[trigger] entity_policy(
                        *old(world),
                        e,
                    ) is None by {
                        if entity_policy(*old(world), e) is Some {
                            assert(ents@.contains(e));
                        }
                    }
                }
                return Ok(());
            },
            Some(_) => {},
        }
    }
    // ---- detach every owner, a fresh dummy taking each slot ----
    let mut g_sched: Option<PackedSchedule> = None;
    match global_p {
        Some(gp) => {
            let dummy = PackedSchedule::dummy_for(gp);
            g_sched = match swap_global(world, dummy) {
                Some(s) => Some(s),
                None => unreached(),
            };
            proof {
                assert(global_stages(*old(world)) == Some(stages_of(g_sched.unwrap().1)));
                assert(global_systems(*old(world)) == Some(systems_of(g_sched.unwrap().1)));
            }
        },
        None => {},
    }
    let mut detached: Vec<PackedSchedule> = Vec::new();
    let mut i2: usize = 0;
    while i2 < ents.len()
        invariant
            i2 <= ents@.len(),
            detached@.len() == i2,
            forall|j: int|
                i2 <= j < ents@.len() ==> #[trigger] entity_policy(*world, ents@[j])
                    == entity_policy(*old(world), ents@[j]),
            forall|j: int|
                i2 <= j < ents@.len() ==> #[trigger] entity_stages(*world, ents@[j])
                    == entity_stages(*old(world), ents@[j]),
            forall|j: int|
                i2 <= j < ents@.len() ==> #[trigger] entity_systems(*world, ents@[j])
                    == entity_systems(*old(world), ents@[j]),
            forall|j: int| 0 <= j < i2 ==> (#[trigger] detached@[j]).0 == policies@[j],
            forall|j: int|
                0 <= j < i2 ==> Some(stages_of((#[trigger] detached@[j]).1)) == entity_stages(
                    *old(world),
                    ents@[j],
                ),
            forall|j: int|
                0 <= j < i2 ==> Some(systems_of((#[trigger] detached@[j]).1)) == entity_systems(
                    *old(world),
                    ents@[j],
                ),
        decreases ents@.len() - i2,
    {
        let e = ents[i2];
        let dummy = PackedSchedule::dummy_for(policies[i2]);
        let got = swap_runner(world, e, dummy);
        let sched = match got {
            Some(s) => s,
            None => unreached(),
        };
        detached.push(sched);
        i2 = i2 + 1;
    }
    // ---- run every detached instance with the one reading, global first ----
    let mut g_ran: Option<PackedSchedule> = None;
    match g_sched {
        Some(mut gs) => {
            let ghost p0 = gs.0;
            let ghost st0 = stages_of(gs.1);
            let ghost sy0 = systems_of(gs.1);
            let rr = gs.run(clock, world);
            proof {
                assert(rr is Ok);
                assert(gs.0 == ticked_policy(p0, *old(world)));
                assert(stages_of(gs.1) == st0);
                assert(systems_of(gs.1) == sy0);
            }
            g_ran = Some(gs);
        },
        None => {},
    }
    let mut ran: Vec<PackedSchedule> = Vec::new();
    while detached.len() > 0
        invariant
            ran@.len() + detached@.len() == ents@.len(),
            policies@.len() == ents@.len(),
            forall|k: int|
                0 <= k < detached@.len() ==> (#[trigger] detached@[k]).0 == policies@[ran@.len()
                    + k],
            forall|k: int|
                0 <= k < detached@.len() ==> Some(stages_of((#[trigger] detached@[k]).1))
                    == entity_stages(*old(world), ents@[ran@.len() + k]),
            forall|k: int|
                0 <= k < detached@.len() ==> Some(systems_of((#[trigger] detached@[k]).1))
                    == entity_systems(*old(world), ents@[ran@.len() + k]),
            forall|j: int|
                0 <= j < ran@.len() ==> (#[trigger] ran@[j]).0 == ticked_policy(
                    policies@[j],
                    *old(world),
                ),
            forall|j: int|
                0 <= j < ran@.len() ==> Some(stages_of((#[trigger] ran@[j]).1)) == entity_stages(
                    *old(world),
                    ents@[j],
                ),
            forall|j: int|
                0 <= j < ran@.len() ==> Some(systems_of((#[trigger] ran@[j]).1))
                    == entity_systems(*old(world), ents@[j]),
        decreases detached@.len(),
    {
        let ghost jj: int = ran@.len() as int;
        let mut s = detached.remove(0);
        proof {
            assert(s.0 == policies@[jj]);
            assert(s.0.wf());
        }
        let rr = s.run(clock, world);
        proof {
            assert(rr is Ok);
            assert(s.0 == ticked_policy(policies@[jj], *old(world)));
        }
        ran.push(s);
    }
    // ---- reattach every instance into the slot it came from ----
    let mut vanished: bool = false;
    let mut i4: usize = 0;
    while i4 < ents.len()
        invariant
            i4 <= ents@.len(),
            ran@.len() + i4 == ents@.len(),
            forall|k: int|
                0 <= k < ran@.len() ==> (#[trigger] ran@[k]).0 == ticked_policy(
                    policies@[i4 + k],
                    *old(world),
                ),
            forall|k: int|
                0 <= k < ran@.len() ==> Some(stages_of((#[trigger] ran@[k]).1)) == entity_stages(
                    *old(world),
                    ents@[i4 + k],
                ),
            forall|k: int|
                0 <= k < ran@.len() ==> Some(systems_of((#[trigger] ran@[k]).1))
                    == entity_systems(*old(world), ents@[i4 + k]),
            !vanished ==> (forall|j: int|
                0 <= j < i4 ==> #[trigger] entity_policy(*world, ents@[j]) == Some(
                    ticked_policy(policies@[j], *old(world)),
                )),
            !vanished ==> (forall|j: int|
                0 <= j < i4 ==> #[trigger] entity_stages(*world, ents@[j]) == entity_stages(
                    *old(world),
                    ents@[j],
                )),
            !vanished ==> (forall|j: int|
                0 <= j < i4 ==> #[trigger] entity_systems(*world, ents@[j]) == entity_systems(
                    *old(world),
                    ents@[j],
                )),
            vanished ==> (exists|j: int|
                0 <= j < i4 && #[trigger] entity_policy(*world, ents@[j]) is None),
        decreases ents@.len() - i4,
    {
        let s = ran.remove(0);
        let e = ents[i4];
        let ghost wbefore: World = *world;
        let ok = restore_runner(world, e, s);
        if !ok {
            vanished = true;
            proof {
                assert(entity_policy(*world, ents@[i4 as int]) is None);
            }
        } else {
            proof {
                if vanished {
                    let j = choose|j: int|
                        0 <= j < i4 && entity_policy(wbefore, ents@[j]) is None;
                    assert(ents@.no_duplicates());
                    assert(ents@[j] != ents@[i4 as int]);
                    assert(entity_policy(*world, ents@[j]) is None);
                }
            }
        }
        i4 = i4 + 1;
    }
    let ghost evan: bool = vanished;
    let ghost w3: World = *world;
    match g_ran {
        Some(gs) => {
            let ok = restore_global(world, gs);
            if !ok {
                vanished = true;
            }
        },
        None => {},
    }
    proof {
        assert forall|e: Entity| #[trigger] entity_policy(*world, e) == entity_policy(
            w3,
            e,
        ) by {}
        assert forall|e: Entity| #[trigger] entity_stages(*world, e) == entity_stages(
            w3,
            e,
        ) by {}
        assert forall|e: Entity| #[trigger] entity_systems(*world, e) == entity_systems(
            w3,
            e,
        ) by {}
        if !vanished {
            assert forall|e: Entity| #[trigger] entity_policy(*old(world), e) is Some implies (
            entity_policy(*world, e) == Some(
                ticked_policy(entity_policy(*old(world), e).unwrap(), *old(world)),
            ) && entity_stages(*world, e) == entity_stages(*old(world), e) && entity_systems(
                *world,
                e,
            ) == entity_systems(*old(world), e)) by {
                assert(ents@.contains(e));
                let j = choose|j: int| 0 <= j < ents@.len() && ents@[j] == e;
                assert(entity_policy(w3, ents@[j]) == Some(
                    ticked_policy(policies@[j], *old(world)),
                ));
                assert(entity_stages(w3, ents@[j]) == entity_stages(*old(world), ents@[j]));
                assert(entity_systems(w3, ents@[j]) == entity_systems(*old(world), ents@[j]));
            }
            if global_policy(*old(world)) is Some {
                assert(global_stages(*world) == global_stages(*old(world)));
                assert(global_systems(*world) == global_systems(*old(world)));
            }
            assert(!owner_vanished(*old(world), *world));
            assert(owners_ticked(*old(world), *world));
            assert(owners_keep_pipelines(*old(world), *world));
        } else {
            if evan {
                let j = choose|j: int|
                    0 <= j < ents@.len() && entity_policy(w3, ents@[j]) is None;
                assert(entity_policy(*old(world), ents@[j]) is Some);
                assert(entity_policy(*world, ents@[j]) is None);
                assert(owner_vanished(*old(world), *world));
            } else {
                assert(global_policy(*old(world)) is Some);
                assert(global_policy(*world) is None);
                assert(owner_vanished(*old(world), *world));
            }
        }
        if ents@.len() > 0 {
            assert(entity_policy(*old(world), ents@[0]) is Some);
        }
    }
    if vanished {
        return Err(ScheduleError::OwnerVanished);
    }
    Ok(())
}

} // verus!
