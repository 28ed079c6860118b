[package]
name = "cyd_weather"
version = "0.1.0"
edition = "2021"
publish = false

[dependencies]
anyhow = "1"
display-interface-spi = "0.5"
embedded-graphics = "0.8"
embedded-svc = "*"
esp-idf-hal = { version = "*", default-features = false, features = ["std"] }
esp-idf-svc = { version = "*", default-features = false, features = ["std"] }
log = "0.4"
miniz_oxide = "0.8"
mipidsi = "0.8"
serde = { version = "1", features = ["derive"] }
serde_json = "1"
