[package]
name = "physarum"
version = "0.1.0"
edition = "2021"
publish = false

[dependencies]
rand = "0.8"
rand_distr = "0.4"
rayon = "1.5"
itertools = "0.10"
indicatif = "0.15"
image = { version = "0.23", default-features = false, features = ["png"] }
