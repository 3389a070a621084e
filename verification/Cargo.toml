[package]
name = "days_since"
version = "0.1.0"
edition = "2021"
publish = false

[dependencies]
anyhow = "1"
chrono = "0.4"
poise = "0.6"
shuttle-persist = "0.47"
shuttle-runtime = "0.47"
shuttle-serenity = "0.47"
