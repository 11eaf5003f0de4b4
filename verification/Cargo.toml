[package]
name = "fast2d"
version = "0.1.0"
edition = "2021"
publish = false

[dependencies]
ttf-parser = "0.25"
web-sys = { version = "0.3", features = ["Window", "Document", "HtmlCanvasElement", "CanvasRenderingContext2d", "TextMetrics", "FontFace", "FontFaceDescriptors", "FontFaceSet", "Response"] }
wasm-bindgen-futures = "0.4"
