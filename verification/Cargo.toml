[package]
name = "wordfeud_ocr"
version = "0.1.0"
edition = "2021"
publish = false

[dependencies]
image = { version = "0.24", default-features = false, features = ["png"] }
imageproc = { version = "0.23", default-features = false }
log = "0.4"
thiserror = "1"
pyo3 = { version = "0.20", features = ["extension-module"] }
