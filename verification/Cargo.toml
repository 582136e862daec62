[package]
name = "jong_talk"
version = "0.1.0"
edition = "2021"
publish = false

[dependencies]
rand = "0.9"
toml = "0.8"
tokio = { version = "1", features = ["rt-multi-thread", "net", "io-util", "sync", "time", "macros"] }
local-ip-address = "*"
system_shutdown = "4"
open = "5"
cargo_toml = "0.22"
