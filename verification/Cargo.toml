[package]
name = "appentry"
version = "0.1.0"
edition = "2021"
publish = false

[dependencies]
anyhow = "1"
inventory = "0.3"
tokio = { version = "1", features = ["rt", "macros"] }
syn = { version = "2", features = ["full"] }
quote = "1"
proc-macro2 = "1"
