[package]
name = "mpd_attrs"
version = "0.1.0"
edition = "2021"
publish = false

[dependencies]
quick-xml = "*"
