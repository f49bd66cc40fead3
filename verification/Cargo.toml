[package]
name = "stockfish"
version = "0.1.0"
edition = "2021"
publish = false

[dependencies]
chess = "=3.2.0"
num_cpus = "=1.17.0"
subprocess = "=0.2.15"
serde = { version = "=1.0.229", features = ["derive"] }
thiserror = "=2.0.21"
