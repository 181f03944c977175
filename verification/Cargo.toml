[package]
name = "op_driver"
version = "0.1.0"
edition = "2021"
publish = false

[dependencies]
bit-set = "0.5"
deno_error = "*"
deno_unsync = "0.4"
futures = "0.3"
v8 = "*"
