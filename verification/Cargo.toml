[package]
name = "floppytracer"
version = "0.1.0"
edition = "2021"
publish = false

[dependencies]
crc16 = "=0.4.0"
md5 = "=0.7.0"
anyhow = "=1.0.104"
clap = { version = "=4.6.7", features = ["derive"] }
rusb = "=0.9.4"
chrono = "=0.4.45"
home = "=0.5.12"
csv = "=1.4.0"
pretty-hex = "=0.3.0"

[dev-dependencies]
rand = { version = "0.8", features = ["small_rng"] }
