[package]
name = "webgpu_candles"
version = "0.1.0"
edition = "2021"
publish = false

[dependencies]
js-sys = "0.3"
wasm-bindgen = "0.2"
wasm-bindgen-futures = "0.4"
web-sys = { version = "0.3", features = ["console", "Window", "Document", "Element", "HtmlElement", "HtmlCanvasElement", "MouseEvent", "WheelEvent", "KeyboardEvent", "Event", "EventTarget", "AddEventListenerOptions", "Performance"] }
serde = { version = "1", features = ["derive"] }
serde_json = "1"
futures = "0.3"
gloo = "0.11"
gloo-net = "0.6"
gloo-timers = { version = "0.3", features = ["futures"] }
once_cell = "1"
leptos = { version = "0.6", features = ["csr"] }
wgpu = "22"
bytemuck = { version = "1", features = ["derive"] }
hecs = "0.10"
derive_more = "0.99"
strum = { version = "0.26", features = ["derive"] }
console_error_panic_hook = "0.1"
serde-wasm-bindgen = "0.6"
rayon = "1"
