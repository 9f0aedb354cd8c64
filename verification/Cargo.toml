[package]
name = "tantivy_cli"
version = "0.1.0"
edition = "2021"
publish = false

[dependencies]
tantivy = "*"
clap = "*"
ansi_term = "*"
serde_json = "*"
futures = "*"
