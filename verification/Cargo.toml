[package]
name = "merge_tool"
version = "0.1.0"
edition = "2021"

[dependencies]
sha256 = "*"
clap = "*"
