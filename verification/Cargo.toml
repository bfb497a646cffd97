[package]
name = "tests_make"
version = "0.1.0"
edition = "2021"
publish = false

[dependencies]
anyhow = "1"
colored = "*"
indexmap = { version = "*", features = ["serde"] }
run_script = "*"
serde = "1"
serde_derive = "1"
structopt = "0.3"
toml = "*"
