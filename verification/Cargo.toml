[package]
name = "skadi_applet"
version = "0.1.0"
edition = "2021"
publish = false

[dependencies]
zbus = { version = "5", default-features = false, features = ["tokio"] }
anyhow = "1"
tokio = { version = "1", features = ["process", "time", "macros", "rt"] }
tracing = "0.1"
tracing-subscriber = { version = "0.3", features = ["env-filter", "fmt"] }
futures = "0.3"
futures-util = "0.3"
