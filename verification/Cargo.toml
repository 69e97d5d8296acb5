[package]
name = "marf_storage"
version = "0.1.0"
edition = "2021"
publish = false

[dependencies]
rusqlite = { version = "*", features = ["bundled", "blob"] }
sha2 = "*"
