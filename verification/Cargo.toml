[package]
name = "ruid"
version = "0.1.0"
edition = "2021"
publish = false

[dependencies]
actix-web = "3"
