[package]
name = "housekeeper"
version = "0.1.0"
edition = "2021"
publish = false

[dependencies]
dirs = "*"
fern = { version = "*", features = ["colored"] }
log = "*"
paw = "*"
structopt = { version = "*", features = ["paw"] }
