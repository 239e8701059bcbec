[package]
name = "pyrustor"
version = "0.1.0"
edition = "2021"
publish = false

[dependencies]
ruff_python_ast = "=0.0.10"
ruff_python_parser = "=0.0.10"
ruff_text_size = "=0.0.10"
serde = { version = "=1.0.229", features = ["derive"] }
walkdir = "=2.5.0"
