[package]
name = "jsontable"
version = "0.1.0"
edition = "2021"
publish = false

[dependencies]
prettytable-rs = "*"
serde_json = "*"
structopt = "*"
anyhow = "*"
