[package]
name = "spring_anim"
version = "0.1.0"
edition = "2021"
publish = false

[dependencies]
seed = "0.6"
seed_comp_helpers = "*"
comp_state = "*"
enclose = "*"
modulator = "*"
once_cell = "1"
wasm-bindgen = "0.2"
web-sys = { version = "0.3", features = ["HtmlElement", "CssStyleDeclaration", "Window", "Document", "Element"] }

[dev-dependencies]
regex = "1"
