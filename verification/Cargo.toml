[package]
name = "garmr"
version = "0.1.0"
edition = "2021"
publish = false

[dependencies]
anyhow = "1"
arrow-array = "=60.1.0"
arrow-buffer = "=60.1.0"
arrow-schema = "=60.1.0"
arrow-select = "=60.1.0"
blake3 = "=1.8.7"
bytes = "1"
chrono = "=0.4.45"
futures = "0.3"
object_store = { version = "=0.13.2", features = ["aws"] }
parquet = { version = "=60.1.0", features = ["arrow"] }
redb = "=2.6.4"
serde = { version = "1", features = ["derive"] }
serde_json = "1"
sqlparser = { version = "=0.61.0", features = ["visitor"] }
tantivy = "=0.25.0"
tokio = { version = "1", features = ["full"] }
tracing = "0.1"
uuid = { version = "1", features = ["v4"] }
