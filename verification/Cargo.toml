[package]
name = "img2pb2"
version = "0.1.0"
edition = "2021"
publish = false

[dependencies]
image = { version = "=0.25.10", default-features = false, features = ["png", "jpeg", "bmp", "gif", "webp", "ico"] }
png = "=0.18.1"
jpeg-decoder = "=0.3.2"
eframe = { version = "=0.30.0", default-features = false, features = ["default_fonts", "glow", "x11"] }
rfd = { version = "=0.15.4", default-features = false, features = ["xdg-portal", "tokio"] }
log = "=0.4.35"
wasm-bindgen = "=0.2.130"
wasm-bindgen-futures = "=0.4.80"
js-sys = "=0.3.107"
web-sys = { version = "=0.3.107", features = ["HtmlCanvasElement", "Window", "Document", "Element", "HtmlAnchorElement", "Blob", "Url"] }
console_error_panic_hook = "=0.1.7"
