[package]
name = "async_dispatcher"
version = "0.1.0"
edition = "2021"
publish = false

[dependencies]
futures = "=0.1.31"
hashbrown = "=0.5.0"
log = "=0.4.34"
shred = { version = "=0.16.1", default-features = false, features = ["parallel"] }
tokio = "=0.1.22"
