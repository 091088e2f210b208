[package]
name = "busicom_gui"
version = "0.1.0"
edition = "2021"
publish = false

[dependencies]
arbitrary-int = "1"
wasm-bindgen = "0.2"
js-sys = "0.3"
wasm-bindgen-futures = "0.4"
console_error_panic_hook = "0.1"
web-sys = { version = "0.3", features = ["Window", "Document", "Element", "HtmlCollection", "HtmlInputElement"] }
