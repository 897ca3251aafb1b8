[package]
name = "tvm_disasm"
version = "0.1.0"
edition = "2021"
publish = false

[dependencies]
anyhow = "=1.0.104"
js-sys = "=0.3.106"
num-bigint = "=0.4.8"
serde = { version = "=1.0.229", features = ["derive"] }
serde_json = "=1.0.154"
smol_str = "=0.3.7"
tycho-disasm = "=0.3.7"
tycho-types = { version = "=0.3.6", features = ["base64", "bigint"] }
tycho-vm = { version = "=0.3.7", features = ["dump"] }
wasm-bindgen = "=0.2.129"
