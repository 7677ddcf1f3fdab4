[package]
name = "srtlib"
version = "0.1.0"
edition = "2021"

[dependencies]
encoding_rs = "0.8"
