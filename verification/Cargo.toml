[package]
name = "s3etag"
version = "0.1.0"
edition = "2021"
publish = false

[dependencies]
md-5 = "=0.10.6"
openssl = "=0.10.81"
clap = { version = "=4.5.61", features = ["env"] }
nix = { version = "=0.29.0", features = ["fs"] }
