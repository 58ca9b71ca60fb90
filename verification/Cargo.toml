[package]
name = "lan_inventory"
version = "0.1.0"
edition = "2021"
publish = false

[dependencies]
anyhow = "1"
axum = { version = "0.7", features = ["ws"] }
chrono = "0.4"
futures-util = "0.3"
image = { version = "0.25", default-features = false, features = ["jpeg"] }
indicatif = "0.17"
once_cell = "1"
pcap = "*"
pnet = "*"
reqwest = { version = "0.12", default-features = false, features = ["json"] }
serde = { version = "1", features = ["derive"] }
serde_json = "1"
tokio = { version = "1", features = ["full"] }
tower = "0.4"
tower-http = { version = "0.5", features = ["trace", "fs"] }
tracing = "0.1"
tracing-subscriber = "0.3"
walkdir = "2"
webp = "*"
