[package]
name = "clusterkit"
version = "0.1.0"
edition = "2021"
publish = false

[dependencies]
annembed = "*"
bincode = "1"
hdbscan = "*"
hnsw_rs = "*"
magnus = "0.7"
ndarray = "*"
rand = "0.8"
serde = { version = "1", features = ["derive"] }
