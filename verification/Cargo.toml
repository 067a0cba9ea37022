[package]
name = "class_scheduler"
version = "0.1.0"
edition = "2021"
publish = false

[dependencies]
anyhow = "=1.0.104"
argon2 = { version = "=0.5.3", features = ["std"] }
keyring = "=3.6.3"
lazy_static = "=1.5.1"
r2d2 = "=0.8.10"
r2d2_sqlite = "=0.35.0"
reqwest = { version = "=0.12.28", default-features = false, features = ["json"] }
rusqlite = { version = "=0.40.2", features = ["bundled"] }
serde = { version = "=1.0.229", features = ["derive"] }
serde_json = "=1.0.154"
thirtyfour = "=0.38.1"
tokio = { version = "=1.54.1", features = ["rt-multi-thread", "macros", "sync", "time"] }
tracing = "=0.1.44"
uuid = { version = "=1.29.0", features = ["v4"] }
zeroize = { version = "=1.9.1", features = ["derive"] }
zip = { version = "=9.1.0", default-features = false }
