[package]
name = "emoji_tokenizer"
version = "0.1.0"
edition = "2021"
publish = false

[dependencies]
regex = "1"
rustwemoji = "*"
tokio = { version = "1", features = ["rt"] }
async-std = "1"
