[package]
name = "async_refcell"
version = "0.1.0"
edition = "2021"
publish = false

[dependencies]
crossbeam-queue = "=0.2.3"
futures-core = "=0.3.34"
futures-task = "=0.3.34"
futures-util = "=0.3.34"
