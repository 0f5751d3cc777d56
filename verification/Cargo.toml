[package]
name = "rlsp-yaml"
version = "0.1.0"
edition = "2021"
publish = false

[dependencies]
ec4rs = "1"
saphyr = "*"
serde_json = "1"
tokio = "1"
tower-lsp = "0.20"
