[package]
name = "llmwiki"
version = "0.2.2"
edition = "2021"
publish = false

[dependencies]
serde = { version = "=1.0.229", features = ["derive"] }
serde_json = "=1.0.154"
encoding_rs = "=0.8.44"
num_cpus = "=1.17.0"
sha2 = "=0.10.9"
base64 = "=0.22.1"
petgraph = "=0.6.5"
zip = { version = "=0.6.6", default-features = false, features = ["deflate"] }
lopdf = { version = "=0.46.0", default-features = false }
strsim = "=0.11.1"
scraper = "*"
