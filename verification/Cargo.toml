[package]
name = "query_plan"
version = "0.1.0"
edition = "2021"
publish = false

[dependencies]
smallvec = "1"
syn = "1"
proc-macro2 = "1"
quote = "1"
