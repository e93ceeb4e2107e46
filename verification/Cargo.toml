[package]
name = "pueue"
version = "0.1.0"
edition = "2021"
publish = false

[dependencies]
nix = { version = "*", default-features = false, features = ["signal"] }
procfs = { version = "*", default-features = false }
chrono = "*"
ctrlc = "*"
log = "*"
simplelog = "*"
anyhow = "*"
clap = { version = "*", features = ["derive"] }
serde = { version = "*", features = ["derive"] }
serde_json = "*"
