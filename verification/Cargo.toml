[package]
name = "ocwatch"
version = "0.1.0"
edition = "2021"
publish = false

[dependencies]
anyhow = "1"
async-trait = "0.1"
crossterm = "0.28"
dirs = "5"
futures = "0.3"
nix = { version = "0.29", features = ["signal", "process", "fs"] }
ratatui = "0.29"
reqwest = { version = "0.12", default-features = false, features = ["json"] }
reqwest-eventsource = "0.6"
serde = { version = "1", features = ["derive"] }
serde_json = "1"
tokio = { version = "1", features = ["full"] }
toml = "0.8"
tracing = "0.1"
