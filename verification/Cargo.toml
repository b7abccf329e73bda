[package]
name = "tifs"
version = "0.1.0"
edition = "2021"
publish = false

[dependencies]
bytes = "1"
bytestring = "1"
fuser = { version = "*", default-features = false }
libc = "0.2"
serde = { version = "1", features = ["derive"] }
serde_json = "1"
tikv-client = "*"
