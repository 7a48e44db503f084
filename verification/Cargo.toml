[package]
name = "sift"
version = "0.3.0"
edition = "2021"
publish = false

[dependencies]
chrono = "*"
clap = "*"
confy = "*"
crossbeam = "*"
rust-crypto = "*"
jwalk = "*"
log = "*"
log4rs = "*"
lopdf = "*"
msg_parser = "*"
pbkdf2 = { version = "*", features = ["simple"] }
rand = "*"
regex = "*"
rpassword = "*"
serde = { version = "*", features = ["derive"] }
xml-rs = "*"
zip = { version = "*", default-features = false, features = ["deflate"] }
