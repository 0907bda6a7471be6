[package]
name = "northstar"
version = "0.1.0"
edition = "2021"
publish = false

[dependencies]
chrono = "0.4"
dirs = "5"
printpdf = { version = "0.7", default-features = false }
