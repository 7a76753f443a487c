[package]
name = "taskbase"
version = "0.1.0"
edition = "2021"
publish = false

[dependencies]
anyhow = "1"
const_format = "0.2"
lazy-env = "*"
log = "0.4"
sqlx = { version = "0.8", default-features = false, features = ["postgres", "runtime-tokio"] }
tokio = { version = "1", features = ["macros", "rt-multi-thread"] }
tokio-postgres = "0.7"
