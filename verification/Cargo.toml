[package]
name = "migration_engine"
version = "0.1.0"
edition = "2021"
publish = false

[dependencies]
edgeql-parser = "*"
termimad = "*"
minimad = "*"
crossterm = "*"
