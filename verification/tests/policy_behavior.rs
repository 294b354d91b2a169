use tick_schedules::{PackedSchedule, ScheduleRunner, ScheduleType};

#[test]
fn always_advances_one_for_any_elapsed() {
    let mut p = ScheduleType::Always;
    assert_eq!(p.advance(5), 1);
    assert_eq!(p, ScheduleType::Always);
    assert_eq!(p.advance(0), 1);
    assert_eq!(p.advance(-1_000_000), 1);
    assert_eq!(p, ScheduleType::Always);
}

#[test]
fn fixed_half_period_steps() {
    // Period of two seconds, four deliveries of half a second each: passes
    // fire only on the fourth call and the accumulator returns to zero.
    let mut p = ScheduleType::Fixed(2_000_000_000, 0);
    assert_eq!(p.advance(500_000_000), 0);
    assert_eq!(p.advance(500_000_000), 0);
    assert_eq!(p.advance(500_000_000), 0);
    assert_eq!(p.advance(500_000_000), 1);
    assert_eq!(p, ScheduleType::Fixed(2_000_000_000, 0));
}

#[test]
fn fixed_catch_up_in_one_call() {
    // Period of one second, one delivery of three and a half seconds: all
    // three due passes are owed at once and half a second remains.
    let mut p = ScheduleType::Fixed(1_000_000_000, 0);
    assert_eq!(p.advance(3_500_000_000), 3);
    assert_eq!(p, ScheduleType::Fixed(1_000_000_000, 500_000_000));
    assert_eq!(p.frame_percent(), (500_000_000, 1_000_000_000));
}

#[test]
fn fixed_ignores_zero_and_negative_elapsed() {
    let mut p = ScheduleType::Fixed(10, 3);
    assert_eq!(p.advance(0), 0);
    assert_eq!(p, ScheduleType::Fixed(10, 3));
    assert_eq!(p.advance(-5), 0);
    assert_eq!(p, ScheduleType::Fixed(10, 3));
}

#[test]
fn fixed_split_equals_whole() {
    // The same total elapsed time gives the same total run count and final
    // accumulator however it is split across calls.
    let mut split = ScheduleType::Fixed(7, 0);
    let mut total = 0u64;
    total += split.advance(3);
    total += split.advance(4);
    total += split.advance(6);
    let mut whole = ScheduleType::Fixed(7, 0);
    let n = whole.advance(13);
    assert_eq!(total, n);
    assert_eq!(total, 1);
    assert_eq!(split, whole);
    assert_eq!(split, ScheduleType::Fixed(7, 6));
}

#[test]
fn progress_monotone_until_pass_then_below_one() {
    let mut p = ScheduleType::Fixed(10, 0);
    assert_eq!(p.frame_percent(), (0, 10));
    p.advance(3);
    assert_eq!(p.frame_percent(), (3, 10));
    p.advance(4);
    assert_eq!(p.frame_percent(), (7, 10));
    assert_eq!(p.advance(5), 1);
    assert_eq!(p.frame_percent(), (2, 10));
}

#[test]
fn progress_of_always_is_one() {
    let p = ScheduleType::Always;
    assert_eq!(p.frame_percent(), (1, 1));
}

#[test]
fn progress_clamps_overfull_accumulator() {
    // A hand-built policy whose accumulator exceeds the period reads as one.
    let p = ScheduleType::Fixed(10, 25);
    assert_eq!(p.frame_percent(), (10, 10));
}

#[test]
fn from_rate_sets_period_and_clear_accumulator() {
    let r = ScheduleRunner::from_rate(5);
    assert_eq!(r.0 .0, ScheduleType::Fixed(5, 0));
    assert_eq!(r.frame_percent(), (0, 5));
}

#[test]
fn from_rate_inv_divides_one_second() {
    let r = ScheduleRunner::from_rate_inv(100);
    assert_eq!(r.0 .0, ScheduleType::Fixed(10_000_000, 0));
    let r = ScheduleRunner::from_rate_inv(1_000_000_000);
    assert_eq!(r.0 .0, ScheduleType::Fixed(1, 0));
    let r = ScheduleRunner::from_rate_inv(3);
    assert_eq!(r.0 .0, ScheduleType::Fixed(333_333_333, 0));
}

#[test]
fn default_runner_is_always() {
    let r = ScheduleRunner::default();
    assert_eq!(r.0 .0, ScheduleType::Always);
    assert_eq!(r.frame_percent(), (1, 1));
}

#[test]
fn default_runner_has_conventional_stages() {
    let r = ScheduleRunner::default();
    let labels: Vec<String> = r.0 .1.iter_stages().map(|(l, _)| format!("{:?}", l)).collect();
    assert_eq!(
        labels,
        vec![
            "\"first\"",
            "\"pre_event\"",
            "\"event\"",
            "\"pre_update\"",
            "\"update\"",
            "\"post_update\"",
            "\"last\"",
        ]
    );
}

#[test]
fn dummy_keeps_parameters_and_clears_accumulator() {
    let packed = PackedSchedule(
        ScheduleType::Fixed(5, 3),
        bevy::ecs::schedule::Schedule::default(),
    );
    let dummy = packed.get_dummy();
    assert_eq!(dummy.0, ScheduleType::Fixed(5, 0));
    assert_eq!(dummy.1.iter_stages().count(), 0);
    let packed = PackedSchedule(
        ScheduleType::Always,
        bevy::ecs::schedule::Schedule::default(),
    );
    assert_eq!(packed.get_dummy().0, ScheduleType::Always);
}

#[test]
fn frame_percent_delegates_through_runner() {
    let mut r = ScheduleRunner::from_rate(4);
    r.0 .0.advance(3);
    assert_eq!(r.frame_percent(), (3, 4));
    assert_eq!(r.0.frame_percent(), (3, 4));
}

#[test]
fn custom_stage_precedes_default_stages() {
    let bare = ScheduleRunner(PackedSchedule(
        ScheduleType::Always,
        bevy::ecs::schedule::Schedule::default(),
    ));
    let r = bare.add_stage("warmup").add_default_stages();
    let labels: Vec<String> = r.0 .1.iter_stages().map(|(l, _)| format!("{:?}", l)).collect();
    assert_eq!(labels.len(), 8);
    assert_eq!(labels[0], "\"warmup\"");
    assert_eq!(labels[1], "\"first\"");
    assert_eq!(labels[7], "\"last\"");
}
