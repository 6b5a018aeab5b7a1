[package]
name = "vdom"
version = "0.1.0"
edition = "2021"
publish = false

[dependencies]
futures = "0.3"
proc-macro2 = "1"
quote = "1"
syn = { version = "2", features = ["full"] }
wasm-bindgen = "0.2"
web-sys = { version = "0.3", features = ["CharacterData", "Document", "Element", "Node", "NodeList", "Text", "Window"] }
