[package]
name = "leptos_query"
version = "0.1.0"
edition = "2021"
publish = false

[dependencies]
leptos = "=0.6.15"
futures = "=0.3.34"
futures-channel = "=0.3.34"
async-trait = "=0.1.92"
js-sys = "=0.3.107"
web-sys = { version = "=0.3.107", features = ["Storage", "Window"] }
miniserde = "=0.1.46"
