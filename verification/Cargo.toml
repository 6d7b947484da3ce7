[package]
name = "moonlit"
version = "0.1.0"
edition = "2021"
publish = false

[dependencies]
ringbuffer = "=0.12.0"
ropey = { version = "=1.6.1", default-features = false }
sdl2 = { version = "=0.38.0", features = ["ttf"] }
tree-sitter = "=0.20.10"
tree-sitter-rust = "=0.20.4"
