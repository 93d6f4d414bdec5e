[package]
name = "atproto_verify"
version = "0.1.0"
edition = "2021"
publish = false

[dependencies]
cid = "*"
sha2 = "*"
k256 = { version = "*", features = ["ecdsa"] }
p256 = { version = "*", features = ["ecdsa"] }
serde_ipld_dagcbor = "*"
ipld-core = "*"
libipld = "*"
serde = { version = "*", features = ["derive"] }
serde_bytes = "*"
wasm-bindgen = "*"
wasm-bindgen-futures = "*"
web-sys = { version = "*", features = ["Request", "RequestInit", "RequestMode", "Response", "Window"] }
serde-wasm-bindgen = "*"
iroh-car = "*"
futures-util = "*"
console_error_panic_hook = "*"
console_log = "*"
log = "*"
