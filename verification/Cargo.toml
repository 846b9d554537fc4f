[package]
name = "ast_interpreter"
version = "0.1.0"
edition = "2021"
publish = false

[dependencies]
num-bigint = { version = "=0.4.8", features = ["serde"] }
num-traits = "=0.2.19"
serde = { version = "=1.0.229", features = ["derive"] }
serde_json = "=1.0.154"
sha2 = "=0.10.9"
acvm = "=1.0.0"
bn254_blackbox_solver = "=1.0.0"

[dev-dependencies]
tempfile = "=3.27.0"
