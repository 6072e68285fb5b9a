[package]
name = "blogs_md_easy"
version = "0.1.0"
edition = "2021"
publish = false

[dependencies]
markdown = "1"
clap = { version = "4", features = ["derive"] }
