[package]
name = "bigs"
version = "0.1.0"
edition = "2021"
publish = false

[dependencies]
indexmap = { version = "1", features = ["serde", "std"] }
rand = { version = "0.8", features = ["small_rng"] }
rand_chacha = "0.3"
serde = { version = "1", features = ["derive"] }
serde_json = "1"
structopt = "0.3"
