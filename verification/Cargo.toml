[package]
name = "crittoutil"
version = "0.1.0"
edition = "2021"
publish = false

[dependencies]
base64 = "0.22"
serde = { version = "1", features = ["derive"] }
serde_json = "1"
rand = "0.8"
dirs = "5"
ureq = { version = "2", default-features = false, features = ["json"] }
