[package]
name = "lineup"
version = "0.1.0"
edition = "2021"
publish = false

[dependencies]
regex = "1"
oxc_allocator = "0.128"
oxc_ast = "0.128"
oxc_parser = "0.128"
oxc_span = "0.128"
ignore = "0.4"
rusqlite = { version = "0.32", features = ["bundled"] }
serde = { version = "1", features = ["derive"] }
serde_json = "1"
