[package]
name = "devloop"
version = "0.11.1"
edition = "2021"
publish = false

[dependencies]
anyhow = "1"
axum = "0.8"
clap = { version = "4", features = ["derive"] }
globset = "0.4"
libc = "0.2"
notify = "8"
pulldown-cmark = { version = "0.13", default-features = false }
rand = "0.9"
regex = "1"
reqwest = { version = "0.12", default-features = false, features = ["json"] }
rustix = { version = "1", features = ["process"] }
serde = { version = "1", features = ["derive"] }
serde_json = "1"
tokio = { version = "1", features = ["full"] }
tokio-stream = { version = "0.1", features = ["sync"] }
toml = "0.9"
tracing = "0.1"
tracing-subscriber = { version = "0.3", features = ["env-filter"] }
unicode-width = "0.2"
