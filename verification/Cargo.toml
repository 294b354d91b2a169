[package]
name = "tick_schedules"
version = "0.1.0"
edition = "2021"
publish = false

[dependencies]
bevy = { version = "=0.5.0", default-features = false }
# Build workaround, not used by any source file: num_enum's derive turns on
# syn's "full" feature for proc-macro builds, which bevy 0.5's derive crates
# rely on without declaring it themselves.
num_enum = { version = "=0.4.3", features = ["complex-expressions"] }
