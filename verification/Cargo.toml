[package]
name = "tt"
version = "0.1.0"
edition = "2021"
publish = false

[dependencies]
anyhow = "1"
handlebars = "2"
serde_json = "1"
structopt = "0.3"
toml = "0.5"
