[package]
name = "calculator-mcp-server"
version = "1.1.0"
edition = "2021"
publish = false

[dependencies]
chrono = { version = "=0.4.45", default-features = false }
rmcp = { version = "=3.8.0", features = ["server", "macros", "transport-io"] }
tokio = { version = "=1.54.1", features = ["macros", "rt-multi-thread", "io-std"] }
serde = { version = "=1.0.229", features = ["derive"] }
serde_json = "=1.0.154"
schemars = "=1.2.3"
anyhow = "=1.0.104"
tracing-subscriber = "=0.3.23"
fasteval = "=0.2.4"
statrs = "=0.19.1"
nalgebra = "=0.35.0"
plotters = { version = "=0.3.7", default-features = false, features = ["bitmap_backend", "line_series"] }
image = { version = "=0.25.10", default-features = false, features = ["png"] }
base64 = "=0.22.1"
