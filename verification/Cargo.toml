[package]
name = "cpp_backend"
version = "0.1.0"
edition = "2021"
publish = false

[dependencies]
uuid = { version = "=1.29.0", features = ["v4"] }
getrandom = "=0.4.3"
async-graphql = "=6.0.11"
async-graphql-axum = "=6.0.11"
axum = "=0.6.20"
http = "=0.2.12"
sqlx = { version = "=0.7.4", default-features = false, features = ["runtime-tokio", "mysql"] }
tokio = { version = "=1.54.1", features = ["macros", "rt-multi-thread"] }
tonic = "=0.9.2"
prost = "=0.11.9"
tower = "=0.4.13"
tower-http = { version = "=0.4.4", features = ["cors"] }
