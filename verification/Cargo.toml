[package]
name = "arkworks_bridge"
version = "0.1.0"
edition = "2021"
publish = false

[dependencies]
ark-bn254 = "0.4"
ark-ff = "0.4"
ark-ec = "0.4"
ark-relations = "0.4"
ark-groth16 = "0.4"
ark-crypto-primitives = { version = "0.4", features = ["snark"] }
ark-serialize = "0.4"
structopt = "0.3"
env_logger = { version = "0.10", default-features = false }
log = "0.4"
rand = "0.8"
