[package]
name = "spectrogram_encoder"
version = "0.1.0"
edition = "2021"
publish = false

[dependencies]
console_error_panic_hook = "0.1"
hound = "3.5"
rustfft = "6"
wasm-bindgen = "0.2"
