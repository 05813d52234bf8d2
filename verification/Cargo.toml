[package]
name = "dprint_plugin_markdown"
version = "0.1.0"
edition = "2021"
publish = false

[dependencies]
anyhow = "=1.0.104"
dprint-core = { version = "=0.75.0", features = ["formatting", "tracing"] }
pulldown-cmark = { version = "=0.13.6", default-features = false }
unicode-width = "=0.2.3"
