[package]
name = "urt"
version = "0.1.0"
edition = "2021"
publish = false

[dependencies]
bit-set = "=0.11.1"
futures = "=0.3.34"
hashbrown = "=0.17.1"
io-uring = "=0.7.15"
libc = "=0.2.191"
slab = "=0.4.12"
socket2 = { version = "=0.6.5", features = ["all"] }
tokio = { version = "=1.54.1", features = ["sync"] }
