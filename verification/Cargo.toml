[package]
name = "klassenbuch"
version = "0.1.0"
edition = "2021"
publish = false

[dependencies]
chrono = "*"
env_logger = "*"
futures = "*"
html-escape = "*"
lazy_static = "*"
log = "*"
regex = "*"
reqwest = { version = "*", default-features = false, features = ["cookies", "gzip"] }
reqwest_cookie_store = "*"
scraper = "*"
serde = { version = "*", features = ["derive"] }
tokio = { version = "*", features = ["rt-multi-thread", "macros", "time"] }
toml = "*"
xlsxwriter = "*"
