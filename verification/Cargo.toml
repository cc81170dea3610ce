[package]
name = "vcb_clipboard"
version = "0.1.0"
edition = "2021"
publish = false

[dependencies]
base64 = "0.22"
colored = "2"
ndarray = "0.16"
sha1_smol = "1"
zstd = "0.13"
