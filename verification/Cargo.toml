[package]
name = "optimization"
version = "0.1.0"
edition = "2021"
publish = false

[dependencies]
rand = "*"
itertools = "*"
plotly = { version = "*", default-features = false }
