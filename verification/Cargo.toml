[package]
name = "craftql"
version = "0.1.0"
edition = "2021"
publish = false

[dependencies]
anyhow = "1"
async-std = { version = "1", features = ["attributes"] }
clap = { version = "3", features = ["derive"] }
graphql-parser = "0.3"
petgraph = "0.6"
