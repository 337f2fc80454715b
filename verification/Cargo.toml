[package]
name = "sentry_docs_language_server"
version = "0.1.0"
edition = "2021"
publish = false

[dependencies]
roxmltree = "*"
parking_lot = "*"
tokio = { version = "1", features = ["rt-multi-thread", "io-std", "io-util"] }
tower-lsp-server = "*"
sentry = { version = "*", default-features = false }
sentry-tracing = "*"
tracing = "0.1"
tracing-subscriber = { version = "0.3", features = ["env-filter", "fmt"] }
