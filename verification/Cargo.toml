[package]
name = "xcm_barrier"
version = "0.1.0"
edition = "2021"
publish = false

[dependencies]
frame-support = "*"
staging-xcm = "*"
tracing = "*"
impl-trait-for-tuples = "*"
