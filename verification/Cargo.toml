[package]
name = "zluda"
version = "0.1.0"
edition = "2021"
publish = false

[dependencies]
blake3 = "1"
diesel = { version = "=2.2.12", features = ["sqlite", "returning_clauses_for_sqlite_3_35"] }
dirs = "6"
libloading = "0.8"
libsqlite3-sys = { version = ">=0.30, <0.36", features = ["bundled"] }
rustc-hash = "2"
serde = "1"
serde_json = "1"
tempfile = "3"
