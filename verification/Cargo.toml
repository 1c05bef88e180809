[package]
name = "branch_diffs"
version = "0.1.0"
edition = "2021"
publish = false

[dependencies]
anyhow = "=1.0.104"
colored = "=2.2.0"
git_commands = "=0.2.0"
regex-syntax = { version = "=0.8.11", features = ["unicode-perl"] }
url = "=2.5.8"

[dev-dependencies]
regex = "=1.13.1"
