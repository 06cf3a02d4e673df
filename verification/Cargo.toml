[package]
name = "cpd"
version = "0.1.0"
edition = "2021"
publish = false

[dependencies]
petgraph = "*"
hungarian = "*"
itertools = "*"
dashmap = "*"
rayon = "*"
clap = { version = "*", features = ["derive"] }
