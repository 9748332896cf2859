[package]
name = "beacon_relayer"
version = "0.1.0"
edition = "2021"
publish = false

[dependencies]
ark-serialize = "0.4"
w3f-bls = "0.1"
sp-core = "31.0.0"
tokio = { version = "1", features = ["macros", "rt-multi-thread"] }
ink = "5"

[dev-dependencies]
parity-scale-codec = "3"
rand = "0.8"
