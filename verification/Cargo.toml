[package]
name = "localhost"
version = "0.1.0"
edition = "2021"
publish = false

[dependencies]
chrono = "*"
colored = "*"
mio = { version = "*", features = ["net", "os-poll"] }
regex = "*"
serde = { version = "*", features = ["derive"] }
tera = "*"
toml = "*"
urlencoding = "*"
