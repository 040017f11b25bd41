[package]
name = "move_unit_test"
version = "0.1.0"
edition = "2021"
publish = false

[dependencies]
anyhow = "1.0.104"
clap = { version = "4.5.61", features = ["derive"] }
colored = "2.2.0"
rayon = "1.12.0"
