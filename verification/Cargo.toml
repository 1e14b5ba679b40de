[package]
name = "deadline_scheduler"
version = "0.1.0"
edition = "2021"
publish = false

[dependencies]
futures = "0.3"
js-sys = "0.3"
parking_lot = "0.12"
wasm-bindgen = "0.2"
web-sys = { version = "0.3", features = ["Window"] }
