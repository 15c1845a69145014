[package]
name = "vid_dup_finder"
version = "0.1.0"
edition = "2021"
publish = false

[dependencies]
serde_json = "*"
walkdir = "*"
shell-words = "*"
image = { version = "*", default-features = false, features = ["png"] }
