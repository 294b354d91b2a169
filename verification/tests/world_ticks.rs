use bevy::ecs::schedule::Schedule;
use bevy::ecs::system::{IntoExclusiveSystem, IntoSystem, ResMut};
use bevy::ecs::world::World;
use tick_schedules::{
    schedule_runner_system, PackedSchedule, ScheduleError, ScheduleRunner, ScheduleType,
};

struct Counter(u64);

fn count(mut c: ResMut<Counter>) {
    c.0 += 1;
}

struct OtherCounter(u64);

fn count_other(mut c: ResMut<OtherCounter>) {
    c.0 += 1;
}

/// Insert a `Time` resource whose delta is at least two milliseconds.
fn install_real_clock(world: &mut World) {
    world.insert_resource(bevy::core::Time::default());
    world.get_resource_mut::<bevy::core::Time>().unwrap().update();
    let t0 = std::time::Instant::now();
    while t0.elapsed() < std::time::Duration::from_millis(2) {}
    world.get_resource_mut::<bevy::core::Time>().unwrap().update();
}

#[test]
fn empty_world_ticks_ok() {
    let mut world = World::default();
    assert_eq!(schedule_runner_system(&mut world), Ok(()));
}

#[test]
fn missing_clock_is_reported_and_runner_kept() {
    let mut world = World::default();
    world.insert_resource(ScheduleRunner::from_rate(1_000_000));
    assert_eq!(
        schedule_runner_system(&mut world),
        Err(ScheduleError::MissingClock)
    );
    let runner = world.get_resource::<ScheduleRunner>().unwrap();
    assert_eq!(runner.0 .0, ScheduleType::Fixed(1_000_000, 0));
}

#[test]
fn zero_period_is_reported_before_running() {
    let mut world = World::default();
    world.insert_resource(bevy::core::Time::default());
    world.insert_resource(ScheduleRunner(PackedSchedule(
        ScheduleType::Fixed(0, 0),
        Schedule::default(),
    )));
    assert_eq!(
        schedule_runner_system(&mut world),
        Err(ScheduleError::InvalidRate)
    );
    let runner = world.get_resource::<ScheduleRunner>().unwrap();
    assert_eq!(runner.0 .0, ScheduleType::Fixed(0, 0));
}

#[test]
fn always_resource_runs_once_per_tick() {
    let mut world = World::default();
    world.insert_resource(Counter(0));
    world.insert_resource(ScheduleRunner::default().add_system(count.system()));
    assert_eq!(schedule_runner_system(&mut world), Ok(()));
    assert_eq!(world.get_resource::<Counter>().unwrap().0, 1);
    // The reattached instance keeps its registered steps: a second tick runs
    // the same system again.
    assert_eq!(schedule_runner_system(&mut world), Ok(()));
    assert_eq!(world.get_resource::<Counter>().unwrap().0, 2);
    let runner = world.get_resource::<ScheduleRunner>().unwrap();
    assert_eq!(runner.0 .0, ScheduleType::Always);
    assert_eq!(runner.0 .1.iter_stages().count(), 7);
}

#[test]
fn always_components_each_run_once() {
    let mut world = World::default();
    world.insert_resource(Counter(0));
    let a = world
        .spawn()
        .insert(ScheduleRunner::default().add_system(count.system()))
        .id();
    let b = world
        .spawn()
        .insert(ScheduleRunner::default().add_system(count.system()))
        .id();
    assert_eq!(schedule_runner_system(&mut world), Ok(()));
    assert_eq!(world.get_resource::<Counter>().unwrap().0, 2);
    assert_eq!(
        world.get::<ScheduleRunner>(a).unwrap().0 .0,
        ScheduleType::Always
    );
    assert_eq!(
        world.get::<ScheduleRunner>(b).unwrap().0 .0,
        ScheduleType::Always
    );
}

#[test]
fn fixed_with_zero_delta_runs_nothing() {
    let mut world = World::default();
    world.insert_resource(bevy::core::Time::default());
    world.insert_resource(Counter(0));
    world.insert_resource(ScheduleRunner::from_rate(5).add_system(count.system()));
    assert_eq!(schedule_runner_system(&mut world), Ok(()));
    assert_eq!(world.get_resource::<Counter>().unwrap().0, 0);
    let runner = world.get_resource::<ScheduleRunner>().unwrap();
    assert_eq!(runner.0 .0, ScheduleType::Fixed(5, 0));
}

#[test]
fn fixed_with_real_delta_catches_up_and_drains() {
    let mut world = World::default();
    install_real_clock(&mut world);
    world.insert_resource(Counter(0));
    world.insert_resource(ScheduleRunner::from_rate(1_000_000).add_system(count.system()));
    assert_eq!(schedule_runner_system(&mut world), Ok(()));
    // The clock advanced by at least two milliseconds, so at least two
    // one-millisecond passes were due; afterwards less than one full period
    // remains in the accumulator.
    let count_after = world.get_resource::<Counter>().unwrap().0;
    assert!(count_after >= 2);
    let runner = world.get_resource::<ScheduleRunner>().unwrap();
    match runner.0 .0 {
        ScheduleType::Fixed(rate, acc) => {
            assert_eq!(rate, 1_000_000);
            assert!(acc < rate);
        }
        ScheduleType::Always => panic!("policy variant changed"),
    }
    let (num, den) = runner.frame_percent();
    assert!(num < den);
}

#[test]
fn two_entities_tick_independently() {
    let mut world = World::default();
    install_real_clock(&mut world);
    world.insert_resource(Counter(0));
    world.insert_resource(OtherCounter(0));
    let fast = world
        .spawn()
        .insert(ScheduleRunner::from_rate(1_000_000).add_system(count.system()))
        .id();
    let slow = world
        .spawn()
        .insert(ScheduleRunner::from_rate(u64::MAX).add_system(count_other.system()))
        .id();
    assert_eq!(schedule_runner_system(&mut world), Ok(()));
    // The fast runner owes at least two passes; the slow one owes none, and
    // its accumulator holds exactly the elapsed time the fast one consumed in
    // full periods plus remainder.
    assert!(world.get_resource::<Counter>().unwrap().0 >= 2);
    assert_eq!(world.get_resource::<OtherCounter>().unwrap().0, 0);
    let fast_policy = world.get::<ScheduleRunner>(fast).unwrap().0 .0;
    let slow_policy = world.get::<ScheduleRunner>(slow).unwrap().0 .0;
    match (fast_policy, slow_policy) {
        (ScheduleType::Fixed(fr, fa), ScheduleType::Fixed(sr, sa)) => {
            assert_eq!(fr, 1_000_000);
            assert!(fa < fr);
            assert_eq!(sr, u64::MAX);
            assert!(sa > 0);
            // Both saw the same clock reading.
            assert_eq!(sa % 1_000_000, fa);
        }
        _ => panic!("policy variant changed"),
    }
}

#[test]
fn global_and_components_run_in_one_tick() {
    let mut world = World::default();
    world.insert_resource(Counter(0));
    world.insert_resource(OtherCounter(0));
    world.insert_resource(ScheduleRunner::default().add_system(count.system()));
    world
        .spawn()
        .insert(ScheduleRunner::default().add_system(count_other.system()));
    assert_eq!(schedule_runner_system(&mut world), Ok(()));
    assert_eq!(world.get_resource::<Counter>().unwrap().0, 1);
    assert_eq!(world.get_resource::<OtherCounter>().unwrap().0, 1);
}

#[test]
fn zero_period_on_entity_is_reported_before_running() {
    let mut world = World::default();
    world.insert_resource(bevy::core::Time::default());
    world.insert_resource(Counter(0));
    world.insert_resource(ScheduleRunner::default().add_system(count.system()));
    let e = world
        .spawn()
        .insert(ScheduleRunner(PackedSchedule(
            ScheduleType::Fixed(0, 7),
            Schedule::default(),
        )))
        .id();
    assert_eq!(
        schedule_runner_system(&mut world),
        Err(ScheduleError::InvalidRate)
    );
    // Found during validation: nothing ran and nothing was touched.
    assert_eq!(world.get_resource::<Counter>().unwrap().0, 0);
    assert_eq!(
        world.get::<ScheduleRunner>(e).unwrap().0 .0,
        ScheduleType::Fixed(0, 7)
    );
}

#[test]
fn missing_clock_on_entity_is_reported_before_running() {
    let mut world = World::default();
    world.insert_resource(Counter(0));
    let fixed = world
        .spawn()
        .insert(ScheduleRunner::from_rate(5))
        .id();
    let always = world
        .spawn()
        .insert(ScheduleRunner::default().add_system(count.system()))
        .id();
    assert_eq!(
        schedule_runner_system(&mut world),
        Err(ScheduleError::MissingClock)
    );
    // The missing clock is a property of the tick, found during validation:
    // nothing ran and every owner is exactly as it was.
    assert_eq!(world.get_resource::<Counter>().unwrap().0, 0);
    assert_eq!(
        world.get::<ScheduleRunner>(fixed).unwrap().0 .0,
        ScheduleType::Fixed(5, 0)
    );
    assert_eq!(
        world.get::<ScheduleRunner>(always).unwrap().0 .0,
        ScheduleType::Always
    );
}

fn steal_global(world: &mut World) {
    world.remove_resource::<ScheduleRunner>();
}

#[test]
fn vanished_global_slot_is_surfaced() {
    let mut world = World::default();
    world.insert_resource(
        ScheduleRunner::default().add_system(steal_global.exclusive_system()),
    );
    assert_eq!(
        schedule_runner_system(&mut world),
        Err(ScheduleError::OwnerVanished)
    );
    // The slot the instance was detached from is gone; the loss is reported
    // loudly rather than papered over.
    assert!(world.get_resource::<ScheduleRunner>().is_none());
}

fn steal_components(world: &mut World) {
    let es: Vec<bevy::ecs::entity::Entity> = world
        .query_filtered::<bevy::ecs::entity::Entity, bevy::ecs::query::With<ScheduleRunner>>()
        .iter(world)
        .collect();
    for e in es {
        world.entity_mut(e).remove::<ScheduleRunner>();
    }
}

#[test]
fn vanished_entity_slot_is_surfaced() {
    let mut world = World::default();
    world.insert_resource(
        ScheduleRunner::default().add_system(steal_components.exclusive_system()),
    );
    let e = world.spawn().insert(ScheduleRunner::default()).id();
    assert_eq!(
        schedule_runner_system(&mut world),
        Err(ScheduleError::OwnerVanished)
    );
    // The global slot survived and was reattached; the entity's did not.
    assert!(world.get_resource::<ScheduleRunner>().is_some());
    assert!(world.get::<ScheduleRunner>(e).is_none());
}
