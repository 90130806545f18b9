[package]
name = "quadratic_inequality"
version = "0.1.0"
edition = "2021"
publish = false

[dependencies]
nom = "7"
thiserror = "1"
wasm-bindgen = "0.2"
