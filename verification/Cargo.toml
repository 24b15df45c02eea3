[package]
name = "fretboard"
version = "0.1.0"
edition = "2021"
publish = false

[dependencies]
kord = { version = "*", default-features = false }
ordered-float = "*"
wasm-minimal-protocol = "*"
