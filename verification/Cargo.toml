[package]
name = "bench_report"
version = "0.1.0"
edition = "2021"
publish = false

[dependencies]
byte-unit = "4"
