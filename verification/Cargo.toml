[package]
name = "gravity_notes"
version = "0.1.0"
edition = "2021"
publish = false

[dependencies]
log = "0.4"
notify = "8"
notify-debouncer-mini = "0.7"
serde = { version = "1", features = ["derive"] }
