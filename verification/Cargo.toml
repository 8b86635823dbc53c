[package]
name = "a11y_snapshot"
version = "0.1.0"
edition = "2021"
publish = false

[dependencies]
zbus = "*"
atspi = "*"
tokio = { version = "*", features = ["macros", "rt-multi-thread"] }
futures = "*"
argh = "*"
