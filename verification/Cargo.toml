[package]
name = "tb_ecs"
version = "0.1.0"
edition = "2021"
publish = false

[dependencies]
bit-set = "*"
syn = { version = "2", features = ["full"] }
quote = "1"
proc-macro2 = "1"
