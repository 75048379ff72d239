[package]
name = "rs_frame"
version = "0.1.0"
edition = "2021"
publish = false

[dependencies]
regex = "1"
serde = { version = "1", features = ["derive"] }
serde_qs = "*"
syn = { version = "*", features = ["full"] }
quote = "*"
proc-macro2 = "*"
