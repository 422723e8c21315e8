[package]
name = "cellar"
version = "0.1.0"
edition = "2021"
publish = false

[dependencies]
sqlparser = "0.56.0"
serde_json = "=1.0.154"
uuid = { version = "=1.29.0", features = ["v4"] }
chrono = "=0.4.45"
serde = { version = "=1.0.229", features = ["derive"] }
thiserror = "=2.0.21"
tokio = { version = "=1.54.1", features = ["fs", "sync", "rt-multi-thread", "macros", "net"] }
tokio-util = { version = "=0.7.20", features = ["compat"] }
futures-util = "=0.3.34"
sqlx = { version = "=0.8.6", default-features = false, features = ["runtime-tokio", "mysql", "sqlite", "chrono", "uuid", "json"] }
tiberius = { version = "=0.12.3", default-features = false, features = ["chrono", "tds73"] }
