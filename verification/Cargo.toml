[package]
name = "grimmnetz"
version = "0.1.0"
edition = "2021"
publish = false

[dependencies]
serde = { version = "1", features = ["derive"] }
serde_json = "1"
rand = "0.8"
uuid = { version = "1", features = ["v4"] }
chrono = "0.4"
russh = "0.44"
russh-keys = "0.44"
tokio = { version = "1", features = ["full"] }
async-trait = "0.1"
anyhow = "1"
rusqlite = { version = "0.31", features = ["bundled"] }
keyring = "3"
sysinfo = "0.32"
