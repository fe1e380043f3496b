[package]
name = "aes67_matrix"
version = "0.1.0"
edition = "2021"
publish = false

[dependencies]
cpal = "0.15"
hound = "3.5"
if-addrs = "0.13"
mdns-sd = "0.13"
reqwest = { version = "0.12", default-features = false, features = ["blocking", "json"] }
rfd = "0.15"
serde = { version = "1", features = ["derive"] }
serde_json = "1"
socket2 = "0.5"
