[package]
name = "eris"
version = "0.1.0"
edition = "2021"
publish = false

[dependencies]
anyhow = "1"
clap = { version = "4", features = ["derive"] }
ego-tree = "0.6"
html5ever = "0.26"
rayon = "1"
reqwest = { version = "0.11", default-features = false, features = ["blocking", "multipart", "json"] }
scraper = { version = "0.17", default-features = false, features = ["deterministic"] }
serde = { version = "1", features = ["derive"] }
thiserror = "1"
walkdir = "2"
zip = { version = "0.6", default-features = false, features = ["deflate"] }
