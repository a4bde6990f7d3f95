[package]
name = "glass-easel-i18n"
version = "0.1.0"
edition = "2021"
publish = false

[dependencies]
glass-easel-template-compiler = "=0.12.1"
toml = "=1.1.7"
serde = "=1.0.229"
clap = { version = "=4.6.7", features = ["derive"] }
wasm-bindgen = "=0.2.92"
