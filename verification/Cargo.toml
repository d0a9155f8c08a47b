[package]
name = "slatedb_vfs"
version = "0.1.0"
edition = "2021"
publish = false

[dependencies]
slatedb = { version = "*", default-features = false }
sqlite-plugin = "*"
rusqlite = { version = "*", features = ["bundled"] }
tokio = { version = "*", default-features = false, features = ["rt-multi-thread", "macros"] }
parking_lot = "*"
log = "*"
