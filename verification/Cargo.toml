[package]
name = "raisin"
version = "0.1.0"
edition = "2021"
publish = false

[dependencies]
anyhow = "1"
chrono = "0.4"
clap = { version = "4", features = ["derive"] }
enum_dispatch = "0.3"
fern = "0.7"
gtk4 = "*"
gtk4-layer-shell = "*"
log = "0.4"
serde = { version = "1", features = ["derive"] }
serde_json = "1"
