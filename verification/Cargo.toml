[package]
name = "yaml_indent"
version = "0.1.0"
edition = "2021"
publish = false

[dependencies]
saphyr-parser = "=0.1.0"
