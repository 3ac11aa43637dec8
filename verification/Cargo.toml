[package]
name = "flakehub-cache-types"
version = "0.1.0"
edition = "2021"
publish = false

[dependencies]
cxx = "1"
displaydoc = "0.2"
hex = "0.4"
nix-base32 = "*"
serde = { version = "1", features = ["derive"] }
serde_json = "1"
sha2 = "0.10"
uuid = { version = "1", features = ["serde"] }

[dev-dependencies]
regex = "1"
