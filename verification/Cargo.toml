[package]
name = "iced-code-editor"
version = "0.1.0"
edition = "2021"
publish = false

[dependencies]
iced = { version = "0.14", default-features = false, features = ["canvas", "x11", "thread-pool"] }
rust-i18n = "3"
syntect = { version = "5", default-features = false, features = ["default-fancy"] }
