[package]
name = "nfse_convert"
version = "0.1.0"
edition = "2021"
publish = false
