[package]
name = "student_list"
version = "0.1.0"
edition = "2021"
publish = false

[dependencies]
yew = { version = "*", features = ["csr"] }
gloo = "*"
gloo-net = "*"
wasm-bindgen-futures = "*"
web-sys = { version = "*", features = ["HtmlInputElement"] }
