[package]
name = "crellinor"
version = "0.1.0"
edition = "2021"
publish = false

[dependencies]
rand = "0.8"
rand_xorshift = "0.3"
serde = { version = "1", features = ["derive"] }
serde_derive = "1"
serde_json = "1"
uuid = { version = "1", features = ["v4"] }
getopts = "0.2"
gotham = "0.7"
mime = "0.3"
maplit = "1"
