[package]
name = "pylight"
version = "0.1.0"
edition = "2021"
publish = false

[dependencies]
ignore = "0.4"
fuzzy-matcher = "0.3"
url = "2"
lsp-types = "0.97"
lsp-server = "0.7"
serde = { version = "1", features = ["derive"] }
serde_json = "1"
notify = "8"
notify-debouncer-mini = "0.6"
walkdir = "2"
clap = { version = "4", features = ["derive"] }
tracing = "0.1"
tracing-subscriber = { version = "0.3", features = ["env-filter"] }
tokio = { version = "1", features = ["rt-multi-thread"] }
anyhow = "1"

[dev-dependencies]
tempfile = "3"
