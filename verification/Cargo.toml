[package]
name = "partition_counts"
version = "0.1.0"
edition = "2021"
publish = false

[dependencies]
num-bigint = "=0.5.1"
threadpool = "=1.8.1"
num_cpus = "=1.17.0"
