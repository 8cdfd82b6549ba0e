[package]
name = "quadratic_voting"
version = "0.1.0"
edition = "2021"
publish = false

[dependencies]
const_format = "0.2"
dotenv = "0.15"
serenity = { version = "0.12", default-features = false, features = ["cache", "client", "gateway", "model", "rustls_backend"] }
tokio = { version = "1", features = ["macros", "rt-multi-thread", "sync", "time"] }
