[package]
name = "echolite"
version = "0.1.0"
edition = "2021"
publish = false

[dependencies]
argon2 = "=0.6.0"
rand = "=0.10.3"
zeroize = "=1.9.0"
tokio = { version = "=1.53.2", features = ["full"] }
clap = { version = "=4.6.7", features = ["derive", "env"] }
rusqlite = { version = "=0.40.2", features = ["bundled", "column_decltype"] }
thiserror = "=2.0.21"
tracing = "=0.1.44"
tracing-subscriber = "=0.3.23"
