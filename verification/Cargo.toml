[package]
name = "dtar"
version = "0.1.0"
edition = "2021"
publish = false

[dependencies]
regex = "1"
sha2 = "0.10"
hex = "0.4"
structopt = "0.3"

[dev-dependencies]
tar = "0.4"
