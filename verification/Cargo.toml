[package]
name = "cpu_bench"
version = "0.1.0"
edition = "2021"
publish = false

[dependencies]
num_cpus = "1"
rand = "0.8"
sha2 = "0.10"
