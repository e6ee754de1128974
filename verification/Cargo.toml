[package]
name = "pixie_wrangler"
version = "0.1.0"
edition = "2021"
publish = false

[dependencies]
bevy = { version = "0.16", default-features = false }
petgraph = "*"
itertools = "*"
rand = "0.8"
serde = { version = "1", features = ["derive"] }
