[package]
name = "process_tracker"
version = "0.1.0"
edition = "2021"
publish = false

[dependencies]
chrono = "0.4"
humantime = "2"
rusqlite = { version = "*", features = ["bundled"] }
sysinfo = "*"
whoami = "1"
