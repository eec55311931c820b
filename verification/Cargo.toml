[package]
name = "exui"
version = "0.1.0"
edition = "2021"
publish = false

[dependencies]
byteorder = "1"
quick-xml = "*"
memmap2 = "0.9"
clap = { version = "4", features = ["derive"] }
tracing-subscriber = { version = "0.3", features = ["env-filter"] }
