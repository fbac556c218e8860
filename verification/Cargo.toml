[package]
name = "htmoxide"
version = "0.1.0"
edition = "2021"
publish = false

[dependencies]
serde_urlencoded = "*"
axum = "*"
tower-cookies = "*"
tower-http = { version = "*", features = ["fs"] }
maud = "*"
serde = "*"
serde_qs = "*"
urlencoding = "*"
