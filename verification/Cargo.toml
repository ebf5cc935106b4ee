[package]
name = "snarkvm"
version = "0.1.0"
edition = "2021"
publish = false

[dependencies]
indexmap = { version = "=2.14.2", features = ["rayon"] }
itertools = "=0.15.0"
rayon = "=1.12.0"
num_cpus = "=1.17.0"
aleo-std = { version = "=1.0.4", features = ["cpu"] }
anyhow = "=1.0.104"
thiserror = "=2.0.21"

[dev-dependencies]
rand = "=0.8.8"
