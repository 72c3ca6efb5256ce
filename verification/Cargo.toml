[package]
name = "sql_query_parser"
version = "0.1.0"
edition = "2021"
publish = false

[dependencies]
anyhow = "1"
pest = "2.7"
thiserror = "1"
