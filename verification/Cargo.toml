[package]
name = "chat_server"
version = "0.1.0"
edition = "2021"
publish = false

[dependencies]
chrono = "0.4"
crypto-hash = "0.3"
json = "0.12"
threadpool = "1.8"
