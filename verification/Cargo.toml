[package]
name = "json_gen"
version = "0.2.3"
edition = "2021"
publish = false

[dependencies]
serde_json = { version = "1", features = ["preserve_order"] }
rand = "0.8"
clap = "4"
log = "0.4"
simplelog = "0.12"
