[package]
name = "agentcorp"
version = "0.1.0"
edition = "2021"
publish = false

[dependencies]
serde = { version = "=1.0.229", features = ["derive"] }
serde_json = "=1.0.154"
chrono = { version = "=0.4.45", default-features = false, features = ["clock", "std"] }
clap = { version = "=4.6.7", features = ["derive"] }
pulldown-cmark = { version = "=0.12.2", default-features = false, features = ["html"] }
reqwest = { version = "=0.12.28", default-features = false, features = ["json"] }
async-trait = "=0.1.92"
nix = { version = "*", default-features = false, features = ["signal"] }
