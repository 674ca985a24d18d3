[package]
name = "hayaku"
version = "0.1.0"
edition = "2021"
publish = false

[dependencies]
anyhow = "=1.0.104"
clap = { version = "=4.6.7", features = ["derive"] }
cliclack = "=0.5.6"
ignore = "=0.4.33"
owo-colors = "=4.4.0"
tera = { version = "=2.4.0", features = ["preserve_order"] }
toml = "=1.1.7"
