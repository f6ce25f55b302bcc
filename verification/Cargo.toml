[package]
name = "bccdc"
version = "0.1.0"
edition = "2021"
publish = false

[dependencies]
regex = "1"
url = "2"
shlex = "1"
reqwest = { version = "*", default-features = false, features = ["blocking", "gzip"] }
