[package]
name = "bitvector_search"
version = "0.1.0"
edition = "2021"
publish = false

[dependencies]
csv = "*"
memmap2 = "*"
ndarray = "*"
rand = "*"
rand_chacha = "*"
rand_distr = "*"
rayon = "*"
serde = { version = "*", features = ["derive"] }
serde_json = "*"
