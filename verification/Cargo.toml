[package]
name = "udp_hopper"
version = "0.1.0"
edition = "2021"
publish = false

[dependencies]
rand = { version = "0.9", features = ["small_rng"] }
ringbuffer = "0.15"
indexmap = "2"
polling = "3"
argh = "0.1"
anyhow = "1"
