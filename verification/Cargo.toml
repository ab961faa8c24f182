[package]
name = "openpgp_ca_lib"
version = "0.1.0"
edition = "2021"
publish = false

[dependencies]
base64 = "*"
sha2 = "*"
chrono = "*"
chbs = "*"
