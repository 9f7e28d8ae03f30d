[package]
name = "card_boundary"
version = "0.1.0"
edition = "2021"
publish = false

[dependencies]
image = { version = "*", default-features = false }
wasm-bindgen = "*"
web-sys = { version = "*", default-features = false, features = ["console"] }
