[package]
name = "img_optim"
version = "0.1.0"
edition = "2021"
publish = false

[dependencies]
globwalk = "*"
anyhow = "*"
clap = { version = "*", features = ["derive"] }
dialoguer = "*"
env_logger = "*"
log = "*"
path-absolutize = "*"
tempfile = "*"
zip = "*"
