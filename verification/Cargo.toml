[package]
name = "terrain_mesh"
version = "0.1.0"
edition = "2021"
publish = false

[dependencies]
js-sys = "*"
nalgebra = "*"
wasm-bindgen = "*"
wasm-bindgen-futures = "*"
web-sys = { version = "*", features = [
    "Document",
    "Element",
    "Event",
    "EventTarget",
    "HtmlCanvasElement",
    "HtmlImageElement",
    "KeyboardEvent",
    "Response",
    "WebGl2RenderingContext",
    "WebGlBuffer",
    "WebGlProgram",
    "WebGlShader",
    "WebGlTexture",
    "WebGlUniformLocation",
    "WebGlVertexArrayObject",
    "Window",
] }
