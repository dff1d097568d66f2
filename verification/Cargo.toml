[package]
name = "done_loader"
version = "0.1.0"
edition = "2021"
publish = false

[dependencies]
deno_core = "*"
url = "2"
