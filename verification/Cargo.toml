[package]
name = "nnet"
version = "0.1.0"
edition = "2021"

[dependencies]
log = "0.4"
num = { version = "0.1", default-features = false }
num_cpus = "1"
rand = "0.3"
scoped_threadpool = "0.1"
