[package]
name = "windlink"
version = "0.1.0"
edition = "2021"
publish = false

[dependencies]
anyhow = "=1.0.104"
mdns-sd = "=0.21.7"
esp-idf-hal = "*"
esp-idf-svc = "*"
log = "*"
clone-macro = "*"

[dev-dependencies]
uuid = "=1.29.0"
