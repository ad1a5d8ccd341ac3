[package]
name = "hagent"
version = "0.1.0"
edition = "2021"
publish = false

[dependencies]
hashbrown = { version = "=0.14.5", default-features = false, features = ["allocator-api2"] }
lazy_static = "=1.5.1"
anyhow = "=1.0.104"
crossbeam = "=0.8.5"
memmap = "=0.7.0"
rand = "=0.7.3"
tracing = "=0.1.44"
clap = { version = "=4.6.7", features = ["derive"] }
mix-distribution = "=0.3.0"
tracing-subscriber = "=0.3.23"
