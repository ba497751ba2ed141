[package]
name = "nodem_esp32"
version = "0.1.0"
edition = "2021"
publish = false

[dependencies]
anyhow = "=1.0.104"
edge-executor = "=0.5.0"
embassy-time = { version = "=0.5.1", features = ["std"] }
embedded-svc = "=0.29.0"
esp-idf-svc = "=0.53.0"
log = "=0.4.35"
ssd1306 = "=0.10.0"
