[package]
name = "mcclwrap"
version = "0.1.0"
edition = "2021"
publish = false

[dependencies]
futures = "0.3"
lazy_static = "1.4"
linefeed = "0.6"
nix = "0.17"
regex = "1"
thiserror = "1"
tokio = { version = "0.2", features = ["full"] }
