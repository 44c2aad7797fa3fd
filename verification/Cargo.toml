[package]
name = "dirdoc"
version = "0.1.0"
edition = "2021"

[dependencies]
walkdir = "2"
