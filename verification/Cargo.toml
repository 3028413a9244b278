[package]
name = "trex_pow"
version = "0.1.0"
edition = "2021"
publish = false

[dependencies]
rug = { version = "=1.19.2", default-features = false, features = ["integer", "rand"] }
gmp-mpfr-sys = { version = "=1.5.3", default-features = false, features = ["use-system-libs"] }
blake3 = "=1.8.7"
sha2 = "=0.10.9"
rand = "=0.8.8"

[dev-dependencies]
parity-scale-codec = { version = "3", default-features = false, features = ["std"] }
primitive-types = { version = "0.12", default-features = false, features = ["std"] }
