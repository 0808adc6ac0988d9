[package]
name = "abzu_interpreter"
version = "0.1.0"
edition = "2021"
publish = false

[dependencies]
rustc_apfloat = "*"
thiserror = "=1.0.69"
