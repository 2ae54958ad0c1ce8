[package]
name = "rustyleaf"
version = "0.1.0"
edition = "2021"
publish = false

[dependencies]
serde_json = "*"
regex = "*"
rstar = "*"
lyon_path = "*"
lyon_tessellation = "*"
