[package]
name = "app-image-manager"
version = "0.1.4"
edition = "2021"
publish = false

[dependencies]
clap = { version = "4", features = ["derive"] }
rust-i18n = "3"
