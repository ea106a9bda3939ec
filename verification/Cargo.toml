[package]
name = "lipics_filter"
version = "0.1.0"
edition = "2021"
publish = false

[dependencies]
nom = "=7.1.3"
pandoc_ast = "=0.8.6"
