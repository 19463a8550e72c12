[package]
name = "wtvr3d"
version = "0.1.0"
edition = "2021"
publish = false

[dependencies]
bincode = "1"
collada = "*"
console_error_panic_hook = "0.1"
js-sys = "0.3"
nalgebra = "0.32"
serde = { version = "1", features = ["derive"] }
specs = { version = "0.16", default-features = false }
specs-hierarchy = "0.6"
wasm-bindgen = "0.2"
web-sys = { version = "0.3", features = ["console", "Document", "Element", "HtmlCanvasElement", "HtmlImageElement", "WebGlBuffer", "WebGlProgram", "WebGlRenderingContext", "WebGl2RenderingContext", "WebGlShader", "WebGlTexture", "WebGlUniformLocation", "Window"] }
