[package]
name = "cpsave"
version = "0.1.0"
edition = "2021"
publish = false

[dependencies]
byteorder = "1"
js-sys = "0.3"
log = "0.4"
wasm-bindgen = "0.2"
wasm-bindgen-futures = "0.4"
wasm-logger = "0.2"
web-sys = { version = "0.3", features = ["Blob", "DataTransfer", "DragEvent", "File", "FileList", "HtmlElement", "HtmlPreElement"] }
yew = "0.17"
