[package]
name = "kafka_rocksdb"
version = "0.1.0"
edition = "2021"
publish = false

[dependencies]
anyhow = "*"
axum = "*"
axum-extra = { version = "*", features = ["typed-header"] }
clap = { version = "*", features = ["derive"] }
config = { version = "*", default-features = false, features = ["toml"] }
futures = "*"
hyper = "*"
log = "*"
pin-project = "*"
prometheus = "*"
rdkafka = "*"
rocksdb = { version = "*", default-features = false }
serde = { version = "*", features = ["derive"] }
syslog = "*"
thiserror = "*"
tokio = { version = "*", features = ["macros", "rt-multi-thread", "signal", "net"] }
