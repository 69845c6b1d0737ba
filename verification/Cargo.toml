[package]
name = "owl2_rs"
version = "0.1.0"
edition = "2021"
publish = false

[dependencies]
tokio = { version = "1", features = ["rt"] }
oxrdf = "*"
oxrdfio = "*"
wasm-bindgen = "*"
thiserror = "*"
