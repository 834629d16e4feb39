[package]
name = "rollcall"
version = "0.1.0"
edition = "2021"
publish = false

[dependencies]
getrandom = "0.3"
sha3 = "0.10"
hex = "0.4"
jiff = { version = "0.2", default-features = false, features = ["std", "serde", "tzdb-bundle-always"] }
urlencoding = "2"
serde = { version = "1", features = ["derive"] }
serde_json = "1"
worker = "*"
minijinja = "2"
pulldown-cmark = "*"
console_error_panic_hook = "0.1"
