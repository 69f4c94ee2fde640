[package]
name = "wasm_imager"
version = "0.1.0"
edition = "2021"
publish = false

[dependencies]
gptman = "1"
mbrman = "*"
uuid = { version = "1", features = ["v4"] }
getrandom = "0.2"
serde = { version = "1", features = ["derive"] }
serde-wasm-bindgen = "*"
wasm-bindgen = "0.2"
tsify = { version = "*", features = ["js"] }
