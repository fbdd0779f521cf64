[package]
name = "connectrpc-tauri"
version = "0.1.0"
edition = "2021"
publish = false

[dependencies]
buffa = "=0.9.2"
bytes = "=1.12.1"
connectrpc = { version = "=0.9.1", default-features = false }
http = "=1.5.0"
http-body = "=1.1.0"
http-body-util = "=0.1.5"
tauri = { version = "=2.12.5", default-features = false }
tokio = { version = "=1.54.1", features = ["rt", "sync", "time"] }
tower = { version = "=0.5.3", features = ["util"] }

[dev-dependencies]
futures = "=0.3.34"
