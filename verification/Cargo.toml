[package]
name = "testrunner"
version = "0.1.0"
edition = "2021"
publish = false

[dependencies]
regex = "1"
similar = { version = "2", features = ["inline"] }
subprocess = "0.2"
uuid = { version = "0.8", features = ["v4"] }
serde = { version = "1", features = ["derive"] }
serde_derive = "1"
serde_json = "1"
toml = "0.5"
thiserror = "1"
clap = "2"
serde_tagged = "0.2"
erased-serde = "0.3"
lazy_static = "1"
