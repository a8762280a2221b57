[package]
name = "rayhunter"
version = "0.1.0"
edition = "2021"
publish = false

[dependencies]
adb_client = "2"
anyhow = "1"
chrono = "0.4"
deku = "*"
futures = "0.3"
log = "0.4"
md5 = "0.7"
serde = { version = "1", features = ["derive"] }
thiserror = "1"
tokio = { version = "1", features = ["fs", "io-util", "rt", "time"] }
