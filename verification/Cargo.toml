[package]
name = "housing_ballot"
version = "0.1.0"
edition = "2021"
publish = false

[dependencies]
polars = { version = "*", default-features = false, features = ["csv"] }
rand = "0.8"
rand_distr = "0.4"
