[package]
name = "zk-psi-verifier"
version = "0.1.0"
edition = "2021"
publish = false

[dependencies]
anyhow = "1"
bincode = "1"
blake3 = { version = "1", features = ["pure"] }
clap = { version = "4", features = ["derive"] }
ff = "0.13"
halo2_proofs = { version = "0.3", features = ["dev-graph"] }
pasta_curves = { version = "0.5", features = ["serde"] }
plotters = { version = "0.3", default-features = false, features = ["bitmap_backend", "bitmap_encoder"] }
rand = "0.8"
