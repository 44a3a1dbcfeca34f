[package]
name = "sensitive_masker"
version = "0.1.0"
edition = "2021"
publish = false

[dependencies]
regex = "1"
chacha20poly1305 = "0.10"
rand = "*"
age = { version = "*", features = ["armor"] }
secrecy = "0.10"
zeroize = "1"
serde = { version = "1", features = ["derive"] }
serde_json = "1"
clap = { version = "4", features = ["derive"] }
encoding_rs = "0.8"
rusqlite = { version = "*", features = ["bundled"] }
dirs = "*"
same-file = "1"
which = "*"
rpassword = "*"
zxcvbn = "*"
thiserror = "*"

[dev-dependencies]
tempfile = "3"
