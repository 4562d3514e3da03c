[package]
name = "canvas_dither"
version = "0.1.0"
edition = "2021"
publish = false

[dependencies]
js-sys = "=0.3.106"
wasm-bindgen = "=0.2.129"
web-sys = { version = "=0.3.106", features = ["CanvasRenderingContext2d", "HtmlCanvasElement", "ImageData", "console"] }
wee_alloc = "=0.4.5"
