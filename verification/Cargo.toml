[package]
name = "sparse_core"
version = "0.1.0"
edition = "2021"
publish = false

[dependencies]
cauchy = "0.4"
mpi = "0.6"
num = "0.4"
thiserror = "1"
