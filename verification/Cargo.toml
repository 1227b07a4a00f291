[package]
name = "zz_client"
version = "0.1.0"
edition = "2021"
publish = false

[dependencies]
bevy = { version = "=0.19.1", default-features = false, features = ["std", "async_executor", "bevy_asset", "bevy_camera", "bevy_color", "bevy_image", "bevy_input_focus", "bevy_log", "bevy_mesh", "bevy_state", "bevy_window", "bevy_winit", "keyboard", "mouse", "touch"] }
bevy_egui = { version = "=0.41.1", default-features = false }
cpal = "=0.18.2"
ewebsock = "=0.8.0"
js-sys = "0.3"
serde = { version = "1", features = ["derive"] }
serde_json = { version = "1", features = ["float_roundtrip"] }
wasm-bindgen = "0.2"
web-sys = { version = "0.3", features = ["CssStyleDeclaration", "Document", "DomTokenList", "Element", "HtmlElement", "HtmlInputElement", "Location", "Navigator", "Storage", "Window"] }
