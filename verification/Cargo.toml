[package]
name = "sqljson"
version = "0.1.0"
edition = "2021"
publish = false

[dependencies]
axum = "*"
dotenvy = "*"
hyper = "*"
log = "*"
r2d2_mysql = "*"
serde = { version = "*", features = ["derive"] }
serde_with = "*"
sqlx = { version = "*", default-features = false, features = ["mysql", "runtime-tokio"] }
sqlx-mysql = "*"
tokio = { version = "*", features = ["rt-multi-thread", "macros", "net"] }
tower-http = { version = "*", features = ["cors", "compression-gzip", "trace"] }
tracing = "*"
tracing-log = "*"
tracing-subscriber = { version = "*", features = ["json", "fmt"] }
