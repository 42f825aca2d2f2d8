[package]
name = "adroit"
version = "0.1.0"
edition = "2021"
publish = false

[dependencies]
uuid = { version = "1", features = ["v4"] }
time = { version = "0.3", features = ["macros", "formatting", "parsing", "local-offset"] }
serde = { version = "1", features = ["derive"] }
serde_json = "1"
serde_yaml_ng = "*"
clap = { version = "4", features = ["derive"] }
ureq = "2"
shellexpand = "3"
directories = "*"
anyhow = "1"
thiserror = "*"
