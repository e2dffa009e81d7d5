[package]
name = "file_lister"
version = "0.1.0"
edition = "2021"
publish = false

[dependencies]
calamine = "=0.36.1"
chrono = { version = "*", default-features = false, features = ["clock"] }
clap = { version = "=4.6.7", features = ["derive"] }
dirs = "=7.0.0"
encoding_rs = "=0.8.42"
image = "=0.25.10"
pdfium-render = "=0.9.4"
symphonia = "=0.6.1"
zip = "=8.6.0"

[dev-dependencies]
csv = "=1.4.0"
