[package]
name = "calyx_verilog"
version = "0.1.0"
edition = "2021"
publish = false

[dependencies]
vast = "0.3"
itertools = "0.10"
