[package]
name = "raudit"
version = "0.1.0"
edition = "2021"
publish = false

[dependencies]
anyhow = "1"
clap = { version = "4", features = ["derive", "env"] }
env_logger = "0.11"
log = "0.4"
prettyplease = "0.2"
proc-macro2 = { version = "1", features = ["span-locations"] }
quote = "1"
serde = { version = "1", features = ["derive"] }
serde_json = "1"
syn = { version = "2", features = ["full", "visit", "visit-mut", "extra-traits"] }
tokio = { version = "1", features = ["full"] }
toml = "0.8"
toml_edit = "0.22"
walkdir = "2"
tracing = "0.1"
