[package]
name = "snake_engine"
version = "0.1.0"
edition = "2021"
publish = false

[dependencies]
wasm-bindgen = "=0.2.129"
js-sys = "=0.3.106"
web-sys = { version = "=0.3.106", features = ["console", "Window", "Document", "Element", "HtmlElement", "HtmlDivElement", "CssStyleDeclaration", "KeyboardEvent", "EventTarget", "Node"] }
