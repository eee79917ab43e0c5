[package]
name = "modswitch"
version = "0.1.0"
edition = "2021"
publish = false

[dependencies]
rfd = { version = "=0.17.2", default-features = false, features = ["xdg-portal"] }
