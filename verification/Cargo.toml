[package]
name = "teletarot"
version = "0.1.0"
edition = "2021"
publish = false

[dependencies]
ahash = "0.8"
fastrand = "2"
itertools = "*"
rustyline = "*"
cursive = "0.21"
cursive-hjkl = "*"
rexpaint = "*"
codepage-437 = "*"
