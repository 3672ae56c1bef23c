[package]
name = "tf_unused"
version = "0.1.0"
edition = "2021"
publish = false

[dependencies]
regex = "1"
glob = "0.3"
clap = "2"
itertools = "0.10"
lazy_static = "1"
