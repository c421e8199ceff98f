[package]
name = "cargo_groups"
version = "0.1.0"
edition = "2021"
publish = false

[dependencies]
globset = "*"
anyhow = "*"
cargo_metadata = "*"
clap = { version = "*", features = ["derive"] }
clap-cargo = "*"
colored = "*"
serde = { version = "*", features = ["derive"] }
toml = "*"
tracing = "*"
tracing-subscriber = "*"
which = "*"
