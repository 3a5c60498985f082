[package]
name = "dmarc_rs"
version = "0.1.0"
edition = "2021"
publish = false

[dependencies]
dns-lookup = "*"
rayon = "*"
num_cpus = "*"
async-std = "*"
clap = { version = "*", features = ["derive"] }
serde = { version = "*", features = ["derive"] }
serde-xml-rs = "*"
anyhow = "*"
