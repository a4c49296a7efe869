[package]
name = "fd_recon"
version = "0.1.0"
edition = "2021"
publish = false

[dependencies]
rustfft = "=6.4.1"
four-bar = { version = "=7.0.5", features = ["csv", "serde"] }
ron = "=0.12.2"
