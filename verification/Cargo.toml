[package]
name = "slider_path"
version = "0.1.0"
edition = "2021"
publish = false

[dependencies]
ggez = "0.6"
glam = { version = "*", features = ["mint"] }
libosu = "*"
