[package]
name = "nyc_train_cal"
version = "0.1.0"
edition = "2021"
publish = false

[dependencies]
chrono = "*"
protobuf = "*"
reqwest = { version = "*", default-features = false }
