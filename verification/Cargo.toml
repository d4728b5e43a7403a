[package]
name = "db_client"
version = "0.1.0"
edition = "2021"
publish = false

[dependencies]
mongodb = "2"
tokio = { version = "1", features = ["macros", "rt-multi-thread", "sync"] }
futures = "0.3"
dotenv = "0.15"
once_cell = "1"
