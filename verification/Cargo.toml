[package]
name = "booklid-rust"
version = "0.1.0"
edition = "2021"
publish = false

[dependencies]
anyhow = "1"
directories = "5"
futures-util = "0.3"
glob = "0.3"
hidapi = "2"
once_cell = "1"
serde = { version = "1", features = ["derive"] }
serde_json = "1"
thiserror = "1"
tokio = { version = "1", features = ["sync", "rt", "rt-multi-thread", "time", "macros"] }
tokio-stream = { version = "0.1", features = ["sync"] }
windows = { version = "0.58", features = ["Devices_Sensors", "Foundation"] }
zbus = { version = "4", default-features = false, features = ["tokio"] }
