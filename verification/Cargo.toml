[package]
name = "configurator"
version = "0.1.0"
edition = "2021"
publish = false

[dependencies]
indexmap = "2"
figment = { version = "0.10", features = ["json"] }
schemars = "0.8"
serde = { version = "1", features = ["derive"] }
serde_json = "1"
ron = "0.8"
anyhow = "1"
directories = "5"
xdg = "2"
