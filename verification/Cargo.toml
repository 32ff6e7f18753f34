[package]
name = "dynrec"
version = "0.1.0"
edition = "2021"
publish = false

[dependencies]
arrow = "=60.0.0"
parquet = "=60.0.0"
fusio = "=0.4.3"
fusio-log = "=0.4.1"
