[package]
name = "supervision"
version = "0.1.0"
edition = "2021"
publish = false

[dependencies]
fxhash = "0.2"
futures = "0.3"
lightproc = "*"
bastion-executor = "*"
