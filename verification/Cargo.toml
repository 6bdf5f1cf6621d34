[package]
name = "libsurfer"
version = "0.1.0"
edition = "2021"
publish = false

[dependencies]
num = "*"
regex = "*"
fuzzy-matcher = "*"
numeric-sort = "*"
itertools = "*"
egui = "0.32"
emath = "0.32"
epaint = "0.32"
ecolor = "0.32"
egui-remixicon = "*"
enum-iterator = "*"
derive_more = { version = "*", features = ["display"] }
serde = { version = "*", features = ["derive"] }
chrono = "*"
camino = "*"
eyre = "*"
rfd = "*"
wasm-bindgen = "*"
