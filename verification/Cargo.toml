[package]
name = "multiplexedblob"
version = "0.1.0"
edition = "2021"
publish = false

[dependencies]
twox-hash = "1"
tokio = { version = "1", features = ["macros", "rt", "time"] }
futures = "0.3"
async-trait = "0.1"
