[package]
name = "nifi-tls-gen"
version = "0.1.0"
edition = "2021"
publish = false

[dependencies]
anyhow = "1"
clap = { version = "4", features = ["derive"] }
p12 = "0.6"
pem = "3"
rand = "0.8"
rcgen = { version = "0.14", features = ["x509-parser"] }
rsa = "0.9"
rustls-pki-types = "1"
sha1 = "0.10"
time = "0.3"
