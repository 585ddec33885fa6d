[package]
name = "sql_lineage"
version = "0.1.0"
edition = "2021"
publish = false

[dependencies]
anyhow = "=1.0.104"
gmsm = "=0.1.0"
indexmap = "=2.14.2"
ipnet = "=2.12.2"
noodles = { version = "*", features = ["core", "gff", "gtf"] }
serde = { version = "=1.0.229", features = ["derive"] }
sqlparser = "=0.44.0"
sudoku = "=0.8.0"
