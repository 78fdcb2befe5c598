[package]
name = "convlog"
version = "0.1.0"
edition = "2021"
publish = false

[dependencies]
num_enum = "0.7"
once_cell = "1"
serde = { version = "1", features = ["derive"] }
serde_repr = "0.1"
thiserror = "1"
