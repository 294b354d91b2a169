use vstd::prelude::*;

use crate::packed::PackedSchedule;
use crate::policy::ScheduleType;
use crate::runner::ScheduleRunner;
use bevy::ecs::entity::Entity;
use bevy::ecs::schedule::Schedule;
use bevy::ecs::world::World;

verus! {

// ---------------------------------------------------------------------------
// Outside types, opaque to the proofs.
// ---------------------------------------------------------------------------
/// bevy's stage-ordered pipeline executor.
#[verifier::external_type_specification]
#[verifier::external_body]
pub struct ExSchedule(Schedule);

/// bevy's entity/resource store, the shared world that pipelines mutate.
#[verifier::external_type_specification]
#[verifier::external_body]
pub struct ExWorld(World);

/// bevy's entity identifier.
#[verifier::external_type_specification]
#[verifier::external_body]
pub struct ExEntity(Entity);

/// bevy's description of a registered step, the argument of `add_system`.
#[verifier::external_type_specification]
#[verifier::external_body]
pub struct ExSystemDescriptor(bevy::ecs::schedule::SystemDescriptor);

// ---------------------------------------------------------------------------
// Names for what the outside values hold.
// ---------------------------------------------------------------------------
/// The ordered stage labels a pipeline was built with.
pub uninterp spec fn stages_of(s: Schedule) -> Seq<Seq<char>>;

/// How many steps are registered in a pipeline under each stage label.
pub uninterp spec fn systems_of(s: Schedule) -> Map<Seq<char>, nat>;

/// Whether the world holds a clock resource (bevy's `Time`).
pub uninterp spec fn has_time(w: World) -> bool;

/// The clock reading stored in the world's `Time` resource, in nanoseconds:
/// the elapsed time since the previous driver tick. A function of the world
/// value alone; meaningful only where `has_time` holds.
pub uninterp spec fn delta_nanos_of(w: World) -> u64;

/// The pipeline was built by this library: every stage is a parallel system
/// stage held under a string label. All pipelines reachable through this
/// crate's constructors satisfy it; bevy panics on stage registration only
/// outside it.
pub uninterp spec fn lib_built(s: Schedule) -> bool;

/// The timing policy of the globally registered runner, if one is installed.
pub uninterp spec fn global_policy(w: World) -> Option<ScheduleType>;

/// The timing policy of the runner component carried by entity `e`, if any.
pub uninterp spec fn entity_policy(w: World, e: Entity) -> Option<ScheduleType>;

/// The stage labels of the pipeline held by the globally registered runner.
pub uninterp spec fn global_stages(w: World) -> Option<Seq<Seq<char>>>;

/// The stage labels of the pipeline held by entity `e`'s runner component.
pub uninterp spec fn entity_stages(w: World, e: Entity) -> Option<Seq<Seq<char>>>;

/// The per-stage step counts of the globally registered runner's pipeline.
pub uninterp spec fn global_systems(w: World) -> Option<Map<Seq<char>, nat>>;

/// The per-stage step counts of entity `e`'s runner pipeline.
pub uninterp spec fn entity_systems(w: World, e: Entity) -> Option<Map<Seq<char>, nat>>;

/// No steps registered under any label.
pub open spec fn no_steps() -> Map<Seq<char>, nat> {
    Map::empty()
}

// ---------------------------------------------------------------------------
// Trusted wrappers around the bevy calls the scheduling logic makes.
// ---------------------------------------------------------------------------
/// Relies on bevy's `Schedule::default`: a pipeline with no stages.
#[verifier::external_body]
pub(crate) fn new_schedule() -> (s: Schedule)
    ensures
        stages_of(s) == Seq::<Seq<char>>::empty(),
        systems_of(s) == no_steps(),
        lib_built(s),
{
    Schedule::default()
}

/// Relies on bevy's `Schedule::add_stage`: appends a fresh parallel stage
/// under the given label. bevy panics on a duplicate label, so the label must
/// be new.
#[verifier::external_body]
pub(crate) fn schedule_add_stage(s: &mut Schedule, label: &'static str)
    requires
        lib_built(*old(s)),
        !stages_of(*old(s)).contains(label@),
    ensures
        stages_of(*final(s)) == stages_of(*old(s)).push(label@),
        systems_of(*final(s)) == systems_of(*old(s)).insert(label@, 0),
        lib_built(*final(s)),
{
    s.add_stage(label, bevy::ecs::schedule::SystemStage::parallel());
}

/// Relies on bevy's `Schedule::run_once`: executes every registered step,
/// stage by stage in order, against the world. The stage list itself is left
/// as it was; the world is mutated arbitrarily by the registered steps.
#[verifier::external_body]
pub(crate) fn run_schedule(s: &mut Schedule, w: &mut World)
    ensures
        stages_of(*final(s)) == stages_of(*old(s)),
        systems_of(*final(s)) == systems_of(*old(s)),
        lib_built(*old(s)) ==> lib_built(*final(s)),
{
    s.run_once(w);
}

/// Relies on bevy's `World::get_resource` for `Time` and `Duration::as_nanos`:
/// the clock reading since the previous driver tick, in nanoseconds, present
/// exactly when the world holds a `Time` resource. The reading is the `Time`
/// resource's stored delta, a function of the world value alone.
#[verifier::external_body]
pub(crate) fn read_delta_nanos(w: &World) -> (r: Option<u64>)
    ensures
        r is Some <==> has_time(*w),
        r matches Some(d) ==> d == delta_nanos_of(*w),
{
    w.get_resource::<bevy::core::Time>().map(|t| t.delta().as_nanos() as u64)
}

/// Relies on bevy's `World::get_resource`: the policy of the globally
/// installed runner, if one is installed.
#[verifier::external_body]
pub(crate) fn peek_global(w: &World) -> (r: Option<ScheduleType>)
    ensures
        r == global_policy(*w),
{
    w.get_resource::<ScheduleRunner>().map(|r| r.0 .0)
}

/// Relies on bevy's `World::get_resource_mut` and `core::mem::replace`: swaps
/// the given instance into the global slot and hands back what the slot held,
/// touching nothing else in the world. When no runner is installed the
/// replacement is dropped.
#[verifier::external_body]
pub(crate) fn swap_global(w: &mut World, replacement: PackedSchedule) -> (r: Option<
    PackedSchedule,
>)
    ensures
        (r is Some) == (global_policy(*old(w)) is Some),
        r matches Some(p) ==> global_policy(*old(w)) == Some(p.0),
        global_policy(*final(w)) == (if global_policy(*old(w)) is Some {
            Some(replacement.0)
        } else {
            Option::<ScheduleType>::None
        }),
        r matches Some(p) ==> global_stages(*old(w)) == Some(stages_of(p.1)),
        r matches Some(p) ==> global_systems(*old(w)) == Some(systems_of(p.1)),
        has_time(*final(w)) == has_time(*old(w)),
        delta_nanos_of(*final(w)) == delta_nanos_of(*old(w)),
        forall|e: Entity| #[trigger] entity_policy(*final(w), e) == entity_policy(*old(w), e),
        forall|e: Entity| #[trigger] entity_stages(*final(w), e) == entity_stages(*old(w), e),
        forall|e: Entity| #[trigger] entity_systems(*final(w), e) == entity_systems(*old(w), e),
{
    match w.get_resource_mut::<ScheduleRunner>() {
        Some(mut g) => Some(core::mem::replace(&mut g.0, replacement)),
        None => None,
    }
}

/// Relies on bevy's `World::get_resource_mut`: writes the instance back into
/// the global slot, reporting whether the slot still exists. When it does not
/// the instance is dropped.
#[verifier::external_body]
pub(crate) fn restore_global(w: &mut World, sched: PackedSchedule) -> (ok: bool)
    ensures
        ok == (global_policy(*old(w)) is Some),
        ok ==> global_policy(*final(w)) == Some(sched.0),
        ok ==> global_stages(*final(w)) == Some(stages_of(sched.1)),
        ok ==> global_systems(*final(w)) == Some(systems_of(sched.1)),
        !ok ==> global_policy(*final(w)) is None,
        has_time(*final(w)) == has_time(*old(w)),
        delta_nanos_of(*final(w)) == delta_nanos_of(*old(w)),
        forall|e: Entity| #[trigger] entity_policy(*final(w), e) == entity_policy(*old(w), e),
        forall|e: Entity| #[trigger] entity_stages(*final(w), e) == entity_stages(*old(w), e),
        forall|e: Entity| #[trigger] entity_systems(*final(w), e) == entity_systems(*old(w), e),
{
    match w.get_resource_mut::<ScheduleRunner>() {
        Some(mut g) => {
            g.0 = sched;
            true
        },
        None => false,
    }
}

/// Relies on bevy's `World::query_filtered` over entities carrying a runner
/// component: every such entity exactly once, in some order, with the world's
/// contents left as they were.
#[verifier::external_body]
pub(crate) fn runner_entities(w: &mut World) -> (v: Vec<Entity>)
    ensures
        forall|e: Entity| #[trigger] v@.contains(e) == (entity_policy(*old(w), e) is Some),
        v@.no_duplicates(),
        has_time(*final(w)) == has_time(*old(w)),
        delta_nanos_of(*final(w)) == delta_nanos_of(*old(w)),
        global_policy(*final(w)) == global_policy(*old(w)),
        global_stages(*final(w)) == global_stages(*old(w)),
        global_systems(*final(w)) == global_systems(*old(w)),
        forall|e: Entity| #[trigger] entity_policy(*final(w), e) == entity_policy(*old(w), e),
        forall|e: Entity| #[trigger] entity_stages(*final(w), e) == entity_stages(*old(w), e),
        forall|e: Entity| #[trigger] entity_systems(*final(w), e) == entity_systems(*old(w), e),
{
    let mut q = w.query_filtered::<Entity, bevy::ecs::query::With<ScheduleRunner>>();
    q.iter(w).collect()
}

/// Relies on bevy's `World::get`: the policy of the runner component carried
/// by the entity, if any.
#[verifier::external_body]
pub(crate) fn peek_runner(w: &World, e: Entity) -> (r: Option<ScheduleType>)
    ensures
        r == entity_policy(*w, e),
{
    w.get::<ScheduleRunner>(e).map(|r| r.0 .0)
}

/// Relies on bevy's `World::get_mut` and `core::mem::replace`: swaps the given
/// instance into the entity's component slot and hands back what the slot
/// held, touching nothing else in the world. When the entity carries no runner
/// the replacement is dropped.
#[verifier::external_body]
pub(crate) fn swap_runner(w: &mut World, e: Entity, replacement: PackedSchedule) -> (r: Option<
    PackedSchedule,
>)
    ensures
        (r is Some) == (entity_policy(*old(w), e) is Some),
        r matches Some(p) ==> entity_policy(*old(w), e) == Some(p.0),
        r matches Some(p) ==> entity_stages(*old(w), e) == Some(stages_of(p.1)),
        r matches Some(p) ==> entity_systems(*old(w), e) == Some(systems_of(p.1)),
        entity_policy(*final(w), e) == (if entity_policy(*old(w), e) is Some {
            Some(replacement.0)
        } else {
            Option::<ScheduleType>::None
        }),
        forall|e2: Entity|
            e2 != e ==> #[trigger] entity_policy(*final(w), e2) == entity_policy(*old(w), e2),
        forall|e2: Entity|
            e2 != e ==> #[trigger] entity_stages(*final(w), e2) == entity_stages(*old(w), e2),
        forall|e2: Entity|
            e2 != e ==> #[trigger] entity_systems(*final(w), e2) == entity_systems(*old(w), e2),
        has_time(*final(w)) == has_time(*old(w)),
        delta_nanos_of(*final(w)) == delta_nanos_of(*old(w)),
        global_policy(*final(w)) == global_policy(*old(w)),
        global_stages(*final(w)) == global_stages(*old(w)),
        global_systems(*final(w)) == global_systems(*old(w)),
{
    match w.get_mut::<ScheduleRunner>(e) {
        Some(mut g) => Some(core::mem::replace(&mut g.0, replacement)),
        None => None,
    }
}

/// Relies on bevy's `World::get_mut`: writes the instance back into the
/// entity's component slot, reporting whether the slot still exists. When it
/// does not the instance is dropped.
#[verifier::external_body]
pub(crate) fn restore_runner(w: &mut World, e: Entity, sched: PackedSchedule) -> (ok: bool)
    ensures
        ok == (entity_policy(*old(w), e) is Some),
        ok ==> entity_policy(*final(w), e) == Some(sched.0),
        ok ==> entity_stages(*final(w), e) == Some(stages_of(sched.1)),
        ok ==> entity_systems(*final(w), e) == Some(systems_of(sched.1)),
        !ok ==> entity_policy(*final(w), e) is None,
        forall|e2: Entity|
            e2 != e ==> #[trigger] entity_stages(*final(w), e2) == entity_stages(*old(w), e2),
        forall|e2: Entity|
            e2 != e ==> #[trigger] entity_systems(*final(w), e2) == entity_systems(*old(w), e2),
        forall|e2: Entity|
            e2 != e ==> #[trigger] entity_policy(*final(w), e2) == entity_policy(*old(w), e2),
        has_time(*final(w)) == has_time(*old(w)),
        delta_nanos_of(*final(w)) == delta_nanos_of(*old(w)),
        global_policy(*final(w)) == global_policy(*old(w)),
        global_stages(*final(w)) == global_stages(*old(w)),
        global_systems(*final(w)) == global_systems(*old(w)),
{
    match w.get_mut::<ScheduleRunner>(e) {
        Some(mut g) => {
            g.0 = sched;
            true
        },
        None => false,
    }
}

} // verus!
