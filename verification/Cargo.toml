[package]
name = "runcove_desktop"
version = "0.4.1"
edition = "2021"
publish = false

[dependencies]
serde = { version = "1", features = ["derive"] }
serde_json = "1"
glob = "0.3"
thiserror = "2"
open = "5"
