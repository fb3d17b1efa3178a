[package]
name = "superdsp"
version = "0.1.0"
edition = "2021"
publish = false

[dependencies]
anyhow = "1"
cordic = "0.1"
libm = "0.2"
num = "0.4"
num-complex = "0.4"
tokio = { version = "1", features = ["macros", "rt", "rt-multi-thread", "sync"] }
