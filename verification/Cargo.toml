[package]
name = "takeoff_core"
version = "0.1.0"
edition = "2021"
publish = false

[dependencies]
anyhow = "*"
delaunator = "*"
geo = "*"
serde = { version = "*", features = ["derive"] }
thiserror = "*"
uom = "*"
