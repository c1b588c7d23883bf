[package]
name = "goods_market"
version = "0.1.0"
edition = "2021"
publish = false

[dependencies]
log = "=0.4.34"
serde = { version = "=1.0.229", features = ["derive"] }
