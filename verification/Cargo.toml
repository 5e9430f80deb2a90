[package]
name = "nix_value_selector"
version = "0.1.0"
edition = "2021"
publish = false

[dependencies]
tree-sitter = "*"
tree-sitter-nix = "*"
clap = { version = "*", features = ["derive"] }
