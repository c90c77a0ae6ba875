[package]
name = "next_config"
version = "0.1.0"
edition = "2021"
publish = false

[dependencies]
fs2 = "0.4"
inventory = "0.3"
proc-macro2 = "1"
quote = "1"
serde = { version = "1", features = ["derive"] }
serde-value = "0.7"
syn = { version = "2", features = ["full"] }
tempfile = "3"
thiserror = "2"
toml = "0.8"
