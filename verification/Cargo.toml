[package]
name = "atlas_engine"
version = "0.1.0"
edition = "2021"
publish = false

[dependencies]
rmp = "=0.8.15"
image = "=0.25.10"
bhtsne = "=0.7.13"
uuid = { version = "=1.27.0", features = ["v4"] }
color-thief = "=0.2.2"
kamadak-exif = "=0.6.1"
chrono = "=0.4.45"

[dev-dependencies]
rmp-serde = "=1.3.1"
serde_json = "=1.0.151"
