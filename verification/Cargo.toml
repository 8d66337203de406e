[package]
name = "wl_protocol"
version = "0.1.0"
edition = "2021"
publish = false

[dependencies]
heck = "*"
serde = { version = "*", features = ["derive"] }
toml = "*"
proc-macro2 = "*"
quote = "*"
syn = { version = "*", features = ["full"] }
