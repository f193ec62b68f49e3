[package]
name = "medulla"
version = "0.1.0"
edition = "2021"
publish = false

[dependencies]
uuid = { version = "1", features = ["v4", "serde"] }
chrono = { version = "0.4", features = ["serde"] }
serde = { version = "1", features = ["derive"] }
serde_json = "1"
serde_yaml = "0.9"
thiserror = "2"
clap = { version = "4", features = ["derive"] }
loro = "1"
rusqlite = { version = "*", features = ["bundled"] }
tokio = { version = "1", features = ["full"] }
rmcp = { version = "*", features = ["server", "macros", "transport-io"] }
schemars = "*"
atty = "0.2"
tracing = "0.1"
tracing-subscriber = { version = "0.3", features = ["env-filter"] }

[dev-dependencies]
tempfile = "3"
