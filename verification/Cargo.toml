[package]
name = "ox_editor"
version = "0.1.0"
edition = "2021"
publish = false

[dependencies]
similar = "2"
thiserror = "2"
