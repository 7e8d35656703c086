[package]
name = "partiql_frontend"
version = "0.1.0"
edition = "2021"
publish = false

[dependencies]
lalrpop-util = "=0.23.2"
partiql-ast = "=0.10.1"
partiql-source-map = "=0.10.1"
partiql-value = "=0.2.0"
