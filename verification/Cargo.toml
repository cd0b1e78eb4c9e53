[package]
name = "module_list"
version = "0.1.0"
edition = "2021"
publish = false

[dependencies]
error-graph = { version = "0.1.1", features = ["serde"] }
failspot = "0.2.0"
goblin = "0.10"
libc = "0.2"
log = "0.4"
plain = "0.2"
serde = { version = "1.0", features = ["derive"] }
thiserror = "2.0"
