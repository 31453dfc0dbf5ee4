[package]
name = "colorcolumn"
version = "0.1.0"
edition = "2021"
publish = false

[dependencies]
regex = "*"
ansi_term = "*"
confy = "*"
serde = { version = "*", features = ["derive"] }
structopt = "*"
