[package]
name = "scene_builder"
version = "0.1.0"
edition = "2021"
publish = false

[dependencies]
serde = { version = "=1.0.229", features = ["derive"] }
serde_json = "=1.0.154"
once_cell = "=1.21.4"
native_db = "=0.8.2"
native_model = "=0.6.2"
image = { version = "=0.25.10", default-features = false, features = ["png"] }
wasm-bindgen = "=0.2.130"
web-sys = { version = "=0.3.107", features = ["Window", "Location", "Document", "Element"] }
