[package]
name = "dmkg"
version = "0.1.0"
edition = "2021"
publish = false

[dependencies]
ark-bls12-381 = "0.2"
ark-ed-on-bls12-381 = "0.2"
ark-ec = "0.2"
ark-ff = "0.2"
ark-poly = "0.2"
ark-serialize = "0.2"
blake2s_simd = "0.5"
rand = "0.7"
rand_chacha = "0.2"
serde_json = "1"
thiserror = "1"
tokio = { version = "1", features = ["rt-multi-thread", "sync", "time"] }
