[package]
name = "auralist"
version = "0.1.0"
edition = "2021"
publish = false

[dependencies]
murmurhash32 = "=0.4.0"
uuid = { version = "=1.27.0", features = ["v4"] }
rand = "=0.10.3"
mime_guess = "=2.0.5"
warp = { version = "=0.4.3", features = ["server"] }
tokio = { version = "=1.53.2", features = ["full"] }
hyper = "=1.12.0"
async-stream = "=0.3.6"
parking_lot = "=0.12.5"
walkdir = "=2.5.0"
serde = { version = "=1.0.229", features = ["derive"] }
flate2 = "=1.1.10"
rusqlite = { version = "=0.40.2", features = ["bundled", "backup"] }
rust-ini = "=0.21.3"
lofty = "=0.25.4"
