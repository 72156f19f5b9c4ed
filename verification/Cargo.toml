[package]
name = "slipcase-desktop"
version = "0.1.0"
edition = "2021"
publish = false

[dependencies]
slpc = { version = "=0.3.11", features = ["fs"] }
tempfile = "=3.27.0"
xattr = "=1.7.0"
opener = "=0.9.0"
zbus = { version = "=5.19.0", default-features = false, features = ["tokio", "blocking-api"] }
