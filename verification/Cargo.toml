[package]
name = "block_editor"
version = "0.1.0"
edition = "2021"
publish = false

[dependencies]
uuid = { version = "1", features = ["v4"] }
leptos = { version = "0.3", features = ["csr"] }
leptos_meta = { version = "0.3", features = ["csr"] }
leptos_router = { version = "0.3", features = ["csr"] }
wasm-bindgen = "0.2"
web-sys = { version = "0.3", features = ["Element", "MutationObserver", "MutationObserverInit", "MutationRecord", "Node", "Window", "Document", "Text"] }
