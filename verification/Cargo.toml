[package]
name = "kanshi"
version = "0.1.0"
edition = "2021"
publish = false

[dependencies]
semver = "1"
chrono = "*"
diesel = { version = "*", features = ["sqlite", "r2d2"] }
diesel_migrations = { version = "*", features = ["sqlite"] }
dotenvy = "*"
fern = { version = "*", features = ["colored"] }
log = "*"
poise = "*"
r2d2 = "*"
serenity = "*"
tokio = { version = "*", features = ["rt-multi-thread", "macros", "signal"] }
