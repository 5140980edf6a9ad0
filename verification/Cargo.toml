[package]
name = "vec64"
version = "0.4.0"
edition = "2021"
publish = false

[dependencies]
libc = "0.2"
rayon = "1"
wasm-bindgen = "0.2"
wasm-bindgen-rayon = "1"
