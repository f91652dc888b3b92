[package]
name = "gamelunch"
version = "0.1.0"
edition = "2021"
publish = false

[dependencies]
eframe = { version = "=0.29.1", default-features = false, features = ["glow", "persistence", "x11"] }
egui = { version = "=0.29.1", default-features = false }
serde = { version = "=1.0.229", features = ["derive"] }
sysinfo = { version = "=0.30.13", default-features = false }
