[package]
name = "groceries"
version = "0.1.0"
edition = "2021"
publish = false

[dependencies]
mongodb = "=3.9.1"
tokio = { version = "=1.53.2", features = ["macros", "rt-multi-thread"] }
warp = { version = "=0.4.3", features = ["server"] }
futures = "=0.3.34"
