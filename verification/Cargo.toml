[package]
name = "ronitor"
version = "0.1.0"
edition = "2021"
publish = false

[dependencies]
actix-web = "4"
serde = { version = "1", features = ["derive"] }
sysinfo = "0.29"
env_logger = "*"
log = "*"
