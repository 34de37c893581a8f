[package]
name = "sqlit"
version = "0.1.0"
edition = "2021"
publish = false

[dependencies]
chrono = { version = "0.4", default-features = false, features = ["std"] }
clap = "3"
linefeed = "0.6"
rayon = "1"
regex = "1"
