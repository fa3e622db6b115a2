[package]
name = "evolve_keyboard_layout"
version = "0.1.0"
edition = "2021"
publish = false

[dependencies]
genevo = "0.7"
js-sys = "0.3"
serde = { version = "1", features = ["derive"] }
serde_yaml = "0.8"
wasm-bindgen = { version = "0.2", features = ["serde-serialize"] }
