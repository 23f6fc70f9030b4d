[package]
name = "bdat_toolset"
version = "0.1.0"
edition = "2021"
publish = false

[dependencies]
bdat = "=0.4.0"
thiserror = "1.0.69"
