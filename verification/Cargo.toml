[package]
name = "us_census"
version = "0.1.0"
edition = "2021"
publish = false

[dependencies]
url = "*"
serde_json = "*"
serde = { version = "*", features = ["derive"] }
chrono = "*"
diesel = { version = "*", features = ["postgres", "chrono"] }
dotenvy = "*"
reqwest = { version = "*", default-features = false }
tokio = { version = "*", features = ["rt-multi-thread", "macros", "fs"] }
thiserror = "*"
