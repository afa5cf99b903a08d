[package]
name = "bulk"
version = "0.1.0"
edition = "2021"
publish = false

[dependencies]
tar = { version = "0.4", default-features = false }
regex = "1"
argparse = "0.2"
failure = { version = "0.1", default-features = false, features = ["std"] }
