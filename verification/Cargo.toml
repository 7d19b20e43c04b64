[package]
name = "pdfdown"
version = "0.1.0"
edition = "2021"
publish = false

[dependencies]
lopdf = "*"
flate2 = "*"
image = { version = "*", default-features = false, features = ["jpeg", "png"] }
hayro-jpeg2000 = "*"
rayon = "*"
napi = "*"
napi-derive = "*"
tesseract-rs = "*"
