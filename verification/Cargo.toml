[package]
name = "fft_rust"
version = "0.1.0"
edition = "2021"
publish = false

[dependencies]
num-complex = "0.4"
num-traits = "0.2"
rustfft = "6"
anyhow = "1"
wasm-bindgen = "0.2"
