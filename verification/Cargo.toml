[package]
name = "yunfengzh_monolith"
version = "0.1.0"
edition = "2021"
publish = false

[dependencies]
cranelift-codegen = "=0.134.4"
cranelift-frontend = "=0.134.4"
cranelift-module = "=0.134.4"
cranelift-jit = "=0.134.4"
cranelift-native = "=0.134.4"
tokio = { version = "=1.54.1", features = ["full"] }
tokio-util = { version = "=0.7.20", features = ["rt"] }
tokio-condvar = "=0.3.0"
serde = { version = "=1.0.229", features = ["derive"] }
syn = { version = "=2.0.119", features = ["full"] }
quote = "=1.0.47"
proc-macro2 = "=1.0.107"
bevy = { version = "=0.17.3", default-features = false, features = ["bevy_pbr", "bevy_ui"] }
