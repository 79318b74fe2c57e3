[package]
name = "tower_defense"
version = "0.1.0"
edition = "2021"
publish = false

[dependencies]
legion = { version = "0.4", default-features = false, features = ["codegen"] }
serde = { version = "1", features = ["derive"] }
yew = "0.17"
wasm-bindgen = "0.2"
wasm-bindgen-futures = "0.4"
web-sys = { version = "0.3", features = ["Blob", "CanvasRenderingContext2d", "Document", "DomRect", "Element", "HtmlCanvasElement", "ImageBitmap", "KeyboardEvent", "MouseEvent", "Request", "RequestInit", "RequestMode", "Response", "Window"] }
console_error_panic_hook = "0.1"
