[package]
name = "smb_client"
version = "0.1.0"
edition = "2021"
publish = false

[dependencies]
getrandom = "0.3"
log = "0.4"
tokio = { version = "1", features = ["rt", "sync", "time"] }
