[package]
name = "diem_solver"
version = "0.1.0"
edition = "2021"
publish = false

[dependencies]
genetic_algorithm = "*"
serde = { version = "*", features = ["derive"] }
rmp-serde = "*"
log = "*"
