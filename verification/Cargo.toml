[package]
name = "gix_plumbing"
version = "0.1.0"
edition = "2021"
publish = false

[dependencies]
bstr = "=1.13.1"
faster-hex = "=1.0.0"
gix-hash = { version = "=0.28.1", features = ["sha1", "sha256"] }
gix-attributes = "=0.37.1"
gix-validate = "=0.13.1"
gix-quote = "=0.10.1"
gix-index = "*"
