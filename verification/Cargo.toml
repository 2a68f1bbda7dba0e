[package]
name = "mcp-server-template"
version = "0.1.0"
edition = "2021"
publish = false

[dependencies]
bytes = "=1.12.1"
http = "=1.5.0"
http-body = "=1.1.0"
http-body-util = "=0.1.5"
rmcp = { version = "=3.8.0", default-features = false, features = ["server", "macros", "schemars", "transport-streamable-http-server"] }
schemars = "=1.2.3"
serde = { version = "=1.0.229", features = ["derive"] }
serde_json = "=1.0.154"
tokio = { version = "=1.54.1", features = ["rt", "time", "net", "macros", "sync"] }
tracing = "=0.1.44"
tracing-subscriber = { version = "=0.3.23", default-features = false, features = ["std", "fmt", "json", "env-filter", "registry"] }
wasip3 = { version = "=0.10.0", features = ["http-compat"] }
wit-bindgen = { version = "=0.63.0", default-features = false, features = ["async", "async-spawn", "inter-task-wakeup"] }
