[package]
name = "git_ignore"
version = "0.1.0"
edition = "2021"
publish = false

[dependencies]
attohttpc = "*"
clap = { version = "3", features = ["derive"] }
clap_complete = "3"
colored = "2"
directories = "4"
serde = { version = "1", features = ["derive"] }
serde_json = "1"
toml = "0.5"
