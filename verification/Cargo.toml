[package]
name = "bar_core"
version = "0.1.0"
edition = "2021"
publish = false

[dependencies]
procinfo = "0.4"
futures = "0.1"
tokio-core = "0.1"
tokio-io = "0.1"
tokio-process = "0.1"
tokio-timer = "0.1"
