[package]
name = "zellij_tools"
version = "0.1.0"
edition = "2021"
publish = false

[dependencies]
kdl = "4"
serde = { version = "1", features = ["derive"] }
serde_json = "1"
clap = { version = "4", features = ["derive"] }
ctrlc = "3"
uuid = { version = "1", features = ["v4"] }
zellij-tile = "*"
