[package]
name = "esp32-xvc"
version = "1.2.0"
edition = "2021"
publish = false

[dependencies]
embassy-sync = "=0.8.0"
esp-alloc = "0.9"
esp-bootloader-esp-idf = { version = "0.4", features = ["esp32"] }
esp-println = { version = "0.16", features = ["esp32"] }
smoltcp = { version = "0.12", default-features = false, features = ["alloc", "medium-ethernet", "proto-ipv4", "socket-tcp"] }
static_cell = "=2.1.1"

[dev-dependencies]
critical-section = { version = "1", features = ["std"] }
