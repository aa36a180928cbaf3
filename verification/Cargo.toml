[package]
name = "ttspotify"
version = "0.1.0"
edition = "2021"
publish = false

[dependencies]
serde = { version = "=1.0.229", features = ["derive"] }
serde_json = "=1.0.154"
dirs = "=5.0.1"
parking_lot = "=0.12.5"
clap = { version = "=4.6.7", features = ["derive"] }
clap_complete = "=4.6.11"
clap_mangen = "=0.2.33"
libc = "=0.2.191"
flate2 = "=1.1.10"
tar = "=0.4.46"
zip = { version = "=2.6.1", default-features = false, features = ["deflate"] }
