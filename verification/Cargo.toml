[package]
name = "fluxer_bounty_bot"
version = "0.1.0"
edition = "2021"
publish = false

[dependencies]
fluxer-neptunium = "*"
chrono = "0.4"
pretty-duration = "*"
either = "1"
enum-map = "2"
anyhow = "1"
tokio = { version = "1", features = ["rt", "sync", "time", "macros"] }
tracing = "0.1"
sqlx = { version = "0.8", default-features = false, features = ["postgres", "chrono", "runtime-tokio"] }
