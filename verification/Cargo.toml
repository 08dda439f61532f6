[package]
name = "eighty"
version = "0.1.0"
edition = "2021"
publish = false

[dependencies]
clap = "4"
handlebars = "4"
hyper = { version = "0.14", features = ["full"] }
notify = "4"
rayon = "1"
serde = { version = "1", features = ["derive"] }
serde_json = "1"
tokio = { version = "1", features = ["full"] }
walkdir = "2"
