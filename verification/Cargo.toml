[package]
name = "cratesiover"
version = "0.2.0"
edition = "2021"
publish = false

[dependencies]
colored = "*"
linefeed = "*"
reqwest = { version = "*", default-features = false, features = ["blocking"] }
