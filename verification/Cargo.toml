[package]
name = "toolbox"
version = "0.1.0"
edition = "2021"
publish = false

[dependencies]
base64 = "*"
blake3 = "*"
clap = { version = "*", features = ["derive"] }
colored = "*"
dirs = "*"
md5 = "*"
qrcode = "*"
rand = "*"
serde = { version = "*", features = ["derive"] }
serde_json = "*"
sha2 = "*"
walkdir = "*"
webbrowser = "*"
image = { version = "*", default-features = false, features = ["png"] }

[dev-dependencies]
hex = "*"
