[package]
name = "github"
version = "0.1.0"
edition = "2021"
publish = false

[dependencies]
rustc-serialize = "0.3"
docopt = "1"
chrono = { version = "0.4", default-features = false, features = ["clock"] }
ureq = "2"
