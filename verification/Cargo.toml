[package]
name = "tracer"
version = "0.1.0"
edition = "2021"
publish = false

[dependencies]
nix = { version = "*", features = ["time"] }
log = "*"
once_cell = "*"

[dev-dependencies]
serde_json = "*"
