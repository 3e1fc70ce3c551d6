[package]
name = "kronox"
version = "0.1.0"
edition = "2021"
publish = false

[dependencies]
chrono = "0.4"
chrono-tz = "0.10"
regex = "1"
scraper = "*"
log = "0.4"
serde = { version = "1", features = ["derive"] }
serde_json = "1"
quick-xml = { version = "*", features = ["serialize"] }
reqwest = { version = "0.12", default-features = false, features = ["rustls-tls"] }
rocket = { version = "0.5", features = ["json"] }
rustls = { version = "0.23", default-features = false, features = ["ring", "std", "tls12", "logging"] }
sqlx = { version = "0.8", default-features = false, features = ["runtime-tokio", "postgres", "chrono", "json"] }
thiserror = "2"
url = "2"
