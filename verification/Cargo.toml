[package]
name = "tracker_core"
version = "0.1.0"
edition = "2021"
publish = false

[dependencies]
anyhow = "=1.0.104"
async-tungstenite = "=0.35.0"
crossbeam-channel = "=0.5.17"
futures = "=0.3.34"
futures-lite = "=2.6.1"
futures-rustls = "=0.26.0"
glommio = "=0.9.0"
hashbrown = "=0.17.1"
hdrhistogram = "=7.6.0"
histogram = "=1.6.0"
indicatif = "=0.18.6"
log = "=0.4.34"
mimalloc = "=0.1.52"
parking_lot = "=0.13.0"
rand = { version = "=0.8.8", features = ["small_rng"] }
rand_distr = "=0.4.3"
simplelog = "=0.12.2"
slab = "=0.4.12"
socket2 = { version = "=0.6.5", features = ["all"] }
tungstenite = "=0.30.0"
