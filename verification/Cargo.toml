[package]
name = "cocogitto"
version = "0.1.0"
edition = "2021"
publish = false

[dependencies]
anyhow = "*"
conventional_commit_parser = "*"
git2 = { version = "*", default-features = false }
log = "*"
