[package]
name = "nova_engine"
version = "0.1.0"
edition = "2021"
publish = false

[dependencies]
halo2curves = "0.6"
sha3 = "0.10"
group = "0.13"
ff = "0.13"
serde = { version = "1", features = ["derive"] }
thiserror = "1"
bellpepper = "0.4"

[dev-dependencies]
rand_core = { version = "0.6", features = ["getrandom"] }
