[package]
name = "osu_stars"
version = "0.1.0"
edition = "2021"
publish = false

[dependencies]
rosu-pp = "*"
