[package]
name = "cosmic_pinger"
version = "0.1.0"
edition = "2021"
publish = false

[dependencies]
chrono = { version = "=0.4.45", default-features = false, features = ["clock"] }
directories = "=6.0.0"
ksni = { version = "=0.3.6", features = ["blocking"] }
notify-rust = "=4.18.2"
reqwest = { version = "=0.12.28", default-features = false, features = ["blocking"] }
serde = { version = "=1.0.229", features = ["derive"] }
serde_json = "=1.0.151"
