[package]
name = "demo_ls"
version = "0.1.0"
edition = "2021"
publish = false

[dependencies]
anyhow = "1"
cairo-lang-compiler = "~2.12"
cairo-lang-defs = "~2.12"
cairo-lang-diagnostics = "~2.12"
cairo-lang-executable = "~2.12"
cairo-lang-filesystem = "~2.12"
cairo-lang-lowering = "~2.12"
cairo-lang-parser = "~2.12"
cairo-lang-semantic = "~2.12"
cairo-lang-starknet = "~2.12"
cairo-lang-syntax = "~2.12"
cairo-lang-test-plugin = "~2.12"
cairo-lang-utils = "~2.12"
clap = { version = "4", features = ["derive"] }
crossbeam-channel = "0.5"
itertools = "0.14"
jod-thread = "*"
rust-analyzer-salsa = "0.17.0-pre.6"
scarb-metadata = "1"
serde_json = "1"
