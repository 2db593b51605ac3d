[package]
name = "client_updater"
version = "0.1.0"
edition = "2021"
publish = false

[dependencies]
zip = "0.6"
serde = { version = "1", features = ["derive"] }
serde_json = "1"
reqwest = { version = "0.11", default-features = false, features = ["blocking", "json"] }
sysinfo = "0.29"
