[package]
name = "weaver"
version = "0.1.0"
edition = "2021"
publish = false

[dependencies]
glob = "=0.3.4"
html5ever = "=0.39.0"
markup5ever_rcdom = "0.39"
path-clean = "=1.0.1"
pulldown-cmark = { version = "=0.13.5", default-features = false, features = ["html"] }
ron = "=0.12.2"
serde = { version = "=1.0.229", features = ["derive"] }
tracing = "=0.1.44"
tracing-subscriber = "=0.3.23"
