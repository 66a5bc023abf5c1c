[package]
name = "flathunter"
version = "0.1.0"
edition = "2021"
publish = false

[dependencies]
select = "*"
reqwest = { version = "*", features = ["blocking"] }
serde = { version = "*", features = ["derive"] }
serde_yaml = "*"
serde_json = "*"
humantime = "*"
log = "*"
fern = "*"
chrono = "*"
signal-hook = "*"
human-panic = "*"
