[package]
name = "rabid"
version = "0.1.0"
edition = "2021"
publish = false

[dependencies]
serde = { version = "*", features = ["derive"] }
serde_json = "*"
crossbeam-channel = "*"
ctrlc = "*"
nanomsg = "*"
i2cdev = "*"
