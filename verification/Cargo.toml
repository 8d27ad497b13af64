[package]
name = "huayuan"
version = "0.1.0"
edition = "2021"
publish = false

[dependencies]
sha2 = "0.10"
serde = { version = "1", features = ["derive"] }
serde_json = "1"
axum = "0.7"
tokio = { version = "1", features = ["macros", "rt-multi-thread", "net"] }
tower-http = { version = "0.5", features = ["cors"] }
leptos = { version = "0.6", features = ["csr"] }
wasm-bindgen = "0.2"
js-sys = "0.3"
web-sys = { version = "0.3", features = ["PointerEvent", "CanvasRenderingContext2d", "HtmlCanvasElement", "HtmlElement", "Storage", "Window", "Document", "Element", "DomRect"] }
console_error_panic_hook = "0.1"
