[package]
name = "monad_gas"
version = "0.1.0"
edition = "2021"
publish = false

[dependencies]
alloy-consensus = "0.8"
alloy-primitives = "0.8"
alloy-rpc-types = "0.8"
futures = "0.3"
itertools = "0.13"
schemars = "0.8"
serde = { version = "1", features = ["derive"] }
tracing = "0.1"
