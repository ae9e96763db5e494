[package]
name = "boatypod"
version = "0.1.0"
edition = "2021"
publish = false

[dependencies]
error-chain = "0.12"
structopt = "0.3"
xdg = "2"

[dev-dependencies]
combine = "3"
