[package]
name = "orchid"
version = "0.1.0"
edition = "2021"
publish = false

[dependencies]
twitch-irc = "*"
tokio = { version = "*", features = ["full"] }
serde = { version = "*", features = ["derive"] }
serde_json = "*"
uuid = { version = "*", features = ["v4"] }
axum = { version = "*", features = ["ws"] }
axum-extra = { version = "*", features = ["typed-header"] }
headers = "*"
futures = "*"
tower-http = { version = "*", features = ["fs", "trace"] }
tracing = "*"
tracing-subscriber = { version = "*", features = ["env-filter"] }
reqwest = { version = "*", default-features = false, features = ["blocking", "json", "rustls-tls"] }
