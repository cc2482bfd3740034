[package]
name = "leaf"
version = "0.1.0"
edition = "2021"
publish = false

[dependencies]
collenchyma = { version = "*", default-features = false, features = ["native"] }
collenchyma-blas = { version = "*", default-features = false, features = ["native"] }
collenchyma-nn = { version = "*", default-features = false, features = ["native"] }
