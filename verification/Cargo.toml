[package]
name = "clippy_lint_test"
version = "0.1.0"
edition = "2021"
publish = false

[dependencies]
anyhow = "*"
argh = "*"
cargo_metadata = "*"
chrono = "*"
csv = "*"
flate2 = "*"
home = "*"
regex = "*"
rm_rf = "*"
tar = "*"
temp-dir = "*"
toml = "*"
