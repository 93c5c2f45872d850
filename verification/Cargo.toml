[package]
name = "userstore"
version = "0.1.0"
edition = "2021"
publish = false

[dependencies]
slab = "0.4"
hyper = { version = "0.14", features = ["server", "http1", "tcp"] }
tokio = { version = "1", features = ["macros", "rt-multi-thread"] }
futures = "0.3"
