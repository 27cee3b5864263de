[package]
name = "nexus"
version = "0.1.0"
edition = "2021"
publish = false

[dependencies]
petgraph = "0.6"
wasm-bindgen = "0.2"
js-sys = "0.3"
web-sys = { version = "0.3", features = ["Window", "Document", "Element", "HtmlElement", "HtmlTextAreaElement", "HtmlSelectElement", "HtmlOptionElement", "DomTokenList", "Event", "EventTarget", "Node"] }
console_log = "1"
console_error_panic_hook = "0.1"
log = "0.4"
