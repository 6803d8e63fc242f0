[package]
name = "repo_metrics"
version = "0.1.0"
edition = "2021"
publish = false

[dependencies]
regex = "1"
chrono = { version = "0.4", default-features = false, features = ["clock", "std"] }
anyhow = "1"
clap = { version = "4", features = ["derive", "env"] }
git2 = { version = "*", default-features = false }
rusqlite = { version = "*", features = ["bundled"] }
reqwest = { version = "0.12", default-features = false, features = ["blocking", "json", "rustls-tls"] }
serde = { version = "1", features = ["derive"] }
