[package]
name = "kytan"
version = "0.1.0"
edition = "2021"
publish = false

[dependencies]
snap = "*"
rand = "*"
mio = { version = "*", features = ["net", "os-poll", "os-ext"] }
dns-lookup = "*"
