[package]
name = "brnt"
version = "0.1.0"
edition = "2021"
publish = false

[dependencies]
colored = "*"
confy = "*"
getch = "*"
glob = "*"
serde = { version = "*", features = ["derive"] }
