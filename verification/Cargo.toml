[package]
name = "easy_release"
version = "0.1.0"
edition = "2021"
publish = false

[dependencies]
cargo_metadata = "0.18"
toml_edit = "0.19"
clap = { version = "4", features = ["derive"] }
tokio = { version = "1", features = ["process"] }
dioxus = "0.4"
dioxus-signals = "0.4"
fermi = "0.4"
layout-rs = "0.1"
public-api = "0.32"
