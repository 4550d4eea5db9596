[package]
name = "weecord"
version = "0.1.0"
edition = "2021"
publish = false

[dependencies]
dirs = "=1.0.5"
libc = "=0.2.191"
serenity = "0.7"
