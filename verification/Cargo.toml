[package]
name = "doc_server"
version = "0.1.0"
edition = "2021"
publish = false

[dependencies]
axum = "*"
clap = { version = "*", features = ["derive"] }
directories = "*"
ignore = "*"
thiserror = "*"
tokio = { version = "*", features = ["full"] }
tower-http = { version = "*", features = ["fs"] }
