[package]
name = "bpfasm"
version = "1.0.0"
edition = "2021"
publish = false

[dependencies]
pest = "2"
thiserror = "1"
honggfuzz = "0.5"
