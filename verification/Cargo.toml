[package]
name = "conn_tracer"
version = "0.1.0"
edition = "2021"
publish = false

[dependencies]
anyhow = "*"
aya = "*"
log = "*"
parking_lot = "*"
tokio = { version = "1", features = ["macros", "rt", "sync", "time"] }
