[package]
name = "strata_core"
version = "0.1.0"
edition = "2021"
publish = false

[dependencies]
datafusion-common = { version = "=54.1.0", features = ["sql"] }
sqlparser = "=0.62.0"
serde_json = "=1.0.154"
