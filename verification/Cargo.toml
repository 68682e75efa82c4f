[package]
name = "babyrs"
version = "0.1.0"
edition = "2021"
publish = false

[dependencies]
chrono = "0.4"
crossterm = "0.27"
csv = "1"
diesel = { version = "2.1", features = ["sqlite", "chrono"] }
dotenvy = "0.15"
lazy_static = "1.4"
log = "0.4"
ratatui = { version = "0.26", features = ["widget-calendar"] }
serde = { version = "1", features = ["derive"] }
time = "0.3"
