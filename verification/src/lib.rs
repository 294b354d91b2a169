//! A tick-scheduling layer for an entity/world simulation: sub-schedules run
//! either on every driver tick or at a fixed period, each with independent
//! timing state, installed globally (as a resource) or attached to any number
//! of entities (as a component).

pub mod bevy_api;
pub mod packed;
pub mod policy;
pub mod runner;

pub use packed::{PackedSchedule, ScheduleError};
pub use policy::ScheduleType;
pub use runner::{schedule_runner_system, ScheduleRunner};
