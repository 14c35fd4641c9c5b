[package]
name = "folder_source"
version = "0.1.0"
edition = "2021"
publish = false

[dependencies]
rand = "0.8"
lexical-sort = "*"
tokio = { version = "1", features = ["rt-multi-thread", "macros", "sync", "time"] }
tokio-stream = "0.1"
async-walkdir = "*"
