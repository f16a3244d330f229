[package]
name = "sir_sim"
version = "0.1.0"
edition = "2021"
publish = false

[dependencies]
fxhash = "0.2"
rand = "0.8"
rand_xoshiro = "0.6"
rand_distr = "0.4"
clap = { version = "4", features = ["derive"] }
csv = "1"
serde = { version = "1", features = ["derive"] }
serde_yaml = "0.9"
threadpool = "1"
tokio = { version = "1", features = ["rt-multi-thread", "sync", "macros", "time"] }
futures = "0.3"
