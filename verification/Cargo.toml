[package]
name = "embedded_resources"
version = "0.1.0"
edition = "2021"
publish = false

[dependencies]
anyhow = "=1.0.104"
python-packaging = "=0.2.0"
python-packed-resources = "=0.1.0"
slog = "=2.8.2"
