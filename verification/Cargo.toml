[package]
name = "verifiable"
version = "0.1.0"
edition = "2021"
publish = false

[dependencies]
ark-scale = "0.0.12"
ark-serialize = "0.4"
bounded-collections = "0.2"
js-sys = "0.3"
parity-scale-codec = "3.6"
wasm-bindgen = "0.2"
