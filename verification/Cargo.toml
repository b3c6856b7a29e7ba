[package]
name = "html_table"
version = "0.1.0"
edition = "2021"
publish = false

[dependencies]
cssparser = "0.27"
