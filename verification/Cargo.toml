[package]
name = "s19parser"
version = "0.1.0"
edition = "2021"
publish = false
