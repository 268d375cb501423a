[package]
name = "kot"
version = "0.1.0"
edition = "2021"
publish = false

[dependencies]
chrono = { version = "0.4", default-features = false, features = ["clock"] }
fs_extra = "1"
regex = "1"
structopt = "0.3"
