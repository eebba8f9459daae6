[package]
name = "binary_options_tools"
version = "0.1.0"
edition = "2021"
publish = false

[dependencies]
rust_decimal = { version = "1", features = ["macros", "maths"] }
regex = "1"
serde = { version = "1", features = ["derive"] }
serde_json = "1"
smol_str = "*"
uuid = { version = "1", features = ["v4"] }
chrono = "0.4"
tokio = { version = "1", features = ["sync", "time", "macros", "rt"] }
futures-util = "0.3"
async-trait = "0.1"
tracing = "0.1"
tokio-tungstenite = { version = "*", default-features = false }
zyn = "*"
