[package]
name = "uv-tool"
version = "0.1.0"
edition = "2021"
publish = false

[dependencies]
anyhow = "1"
dirs-sys = "0.4.1"
fs-err = "2.11"
owo-colors = "4"
pathdiff = "0.2.1"
pep440_rs = "0.7"
pep508_rs = "0.9"
thiserror = "1"
toml = "0.8"
toml_edit = { version = "0.22", features = ["serde"] }
tracing = "0.1"
