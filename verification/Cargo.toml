[package]
name = "aylang"
version = "0.1.0"
edition = "2021"
publish = false

[dependencies]
quickscope = "*"
pest = "2"
pest_derive = "2"
