[package]
name = "gathering"
version = "0.1.0"
edition = "2021"
publish = false

[dependencies]
anyhow = "*"
futures = "*"
glob = "*"
lazy_static = "*"
leptess = "*"
opencv = "*"
rayon = "*"
scryers = "*"
serde = { version = "*", features = ["derive"] }
serde_json = "*"
strsim = "*"
tokio = { version = "*", features = ["full"] }
warp = "*"
