[package]
name = "docworks"
version = "0.1.0"
edition = "2021"
publish = false

[dependencies]
sha2 = "=0.10.9"
hex = "=0.4.3"
serde = { version = "=1.0.229", features = ["derive"] }
serde_json = "=1.0.154"
zip = "=2.6.1"
quick-xml = "=0.42.0"
anyhow = "=1.0.104"
regex = "=1.13.1"
similar = "=2.7.0"
lopdf = "*"
calamine = "*"
