[package]
name = "rootpermit"
version = "0.1.0"
edition = "2021"
publish = false

[dependencies]
sha2 = "0.10"
ed25519-dalek = "2"
base64 = "0.22"
libc = "0.2"
