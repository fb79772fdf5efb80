[package]
name = "erock"
version = "0.1.0"
edition = "2021"
publish = false

[dependencies]
wide = "=0.7.33"
bytemuck = "=1.25.2"
axum = "=0.7.9"
tokio = { version = "=1.54.1", features = ["full"] }
serde = { version = "=1.0.229", features = ["derive"] }
serde_json = "=1.0.154"
cranelift = "0.130"
cranelift-codegen = "0.130"
cranelift-frontend = "0.130"
cranelift-jit = "0.130"
cranelift-module = "0.130"
cranelift-native = "0.130"
