[package]
name = "housing_clustering"
version = "0.1.0"
edition = "2021"
publish = false

[dependencies]
csv = "1"
plotters = "0.3"
serde = { version = "1", features = ["derive"] }
