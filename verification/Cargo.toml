[package]
name = "tetra_pd"
version = "0.1.0"
edition = "2021"
publish = false

[dependencies]
anyhow = "1"
bitcode = { version = "0.6", features = ["derive"] }
clap = { version = "4", features = ["derive"] }
serde = { version = "1", features = ["derive"] }
thiserror = "2"
tokio = { version = "1", features = ["macros", "rt-multi-thread", "signal", "sync", "time"] }
tokio-tun = "0.15"
toml = "0.8"
tracing = "0.1"
tracing-subscriber = "0.3"
