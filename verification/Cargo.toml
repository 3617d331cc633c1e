[package]
name = "schema_graph"
version = "0.1.0"
edition = "2021"
publish = false

[dependencies]
serde = { version = "*", features = ["derive"] }
serde_json = "*"
chrono = "*"
tokio = { version = "*", features = ["macros", "net", "rt", "time"] }
odbc-api = "*"

[dev-dependencies]
regex = "*"
