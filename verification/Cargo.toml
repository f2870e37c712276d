[package]
name = "chat_observer"
version = "0.1.0"
edition = "2021"
publish = false

[dependencies]
wasm-bindgen = "=0.2.129"
js-sys = "=0.3.106"
web-sys = { version = "=0.3.106", features = ["Document", "Element", "HtmlElement", "Node", "NodeList", "Window"] }
serde = { version = "=1.0.229", features = ["derive"] }
serde_json = "=1.0.151"
