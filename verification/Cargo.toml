[package]
name = "forgeconf"
version = "0.1.0"
edition = "2021"
publish = false

[dependencies]
jzon = "*"
proc-macro2 = "*"
quote = "*"
regex = "*"
syn = { version = "*", features = ["full"] }
thiserror = "*"
toml = "*"
yaml-rust2 = "*"
