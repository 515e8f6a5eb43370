[package]
name = "hexview"
version = "0.1.0"
edition = "2021"
publish = false

[dependencies]
arboard = { version = "*", default-features = false }
base64 = "*"
encoding_rs = "*"
ratatui = { version = "0.29", default-features = false }
thiserror = "*"
unicode-segmentation = "*"
unicode-width = "*"
