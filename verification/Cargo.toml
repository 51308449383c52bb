[package]
name = "kmeans_quant"
version = "0.1.0"
edition = "2021"
publish = false

[dependencies]
ndarray = "0.16"
ndarray-rand = "0.15"
image = { version = "0.25", default-features = false, features = ["jpeg", "png"] }
