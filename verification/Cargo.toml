[package]
name = "query_params"
version = "0.1.0"
edition = "2021"
publish = false
