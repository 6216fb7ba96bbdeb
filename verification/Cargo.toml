[package]
name = "porterm"
version = "0.1.0"
edition = "2021"
publish = false

[dependencies]
chrono = "*"
serde = { version = "*", features = ["derive"] }
gloo-net = "*"
js-sys = "*"
wasm-bindgen = "*"
wasm-bindgen-futures = "*"
console_error_panic_hook = "*"
