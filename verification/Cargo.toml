[package]
name = "sto_clare"
version = "0.1.0"
edition = "2021"
publish = false

[dependencies]
chrono = { version = "=0.4.45", default-features = false, features = ["alloc"] }
serde = { version = "=1.0.229", features = ["derive"] }
serde_json = "=1.0.154"
dirs = "=7.0.0"
log = "=0.4.35"
simplelog = "=0.12.2"
rust_xlsxwriter = { version = "=0.102.0", default-features = false }

[dev-dependencies]
regex = "1"
