[package]
name = "pipeline"
version = "0.1.0"
edition = "2021"
publish = false

[dependencies]
serde = { version = "=1.0.229", features = ["derive"] }
serde_json = "=1.0.154"
clap = { version = "=4.6.7", features = ["derive"] }
notify = "=8.2.1"
notify-debouncer-mini = "=0.7.0"
