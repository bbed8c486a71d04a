[package]
name = "nxarchive"
version = "0.1.0"
edition = "2021"
publish = false

[dependencies]
aes = "0.9"
chrono = "0.4"
clap = { version = "4", features = ["derive"] }
ctr = "0.10"
rand = "0.8"
rsa = { version = "0.9", features = ["sha2", "pem"] }
sha2 = "0.10"
thiserror = "2"
xts-mode = "0.6"
zerocopy = { version = "0.8", features = ["derive"] }
