[package]
name = "wasi_tcp"
version = "0.1.0"
edition = "2021"
publish = false

[dependencies]
colony = "=0.3.0"
hyper = { version = "=0.14.32", features = ["client", "http1"] }
tokio = { version = "=1.54.1", features = ["full"] }
tower = "0.4"
wasi-common = "11"
wasmtime = { version = "11", default-features = false, features = ["cranelift"] }
wasmtime-wasi = { version = "11", default-features = false, features = ["sync"] }
