[package]
name = "berbalang"
version = "0.1.0"
edition = "2021"
publish = false

[dependencies]
crossbeam = "*"
hashbrown = "*"
rand = "*"
distance = "*"
serde = { version = "*", features = ["derive"] }
