[package]
name = "content_tree"
version = "0.1.0"
edition = "2021"
publish = false

[dependencies]
syn = { version = "2", features = ["full"] }
proc-macro2 = "1"
quote = "1"
pandoc = "*"
threadpool = "1"
tqdm = "*"
