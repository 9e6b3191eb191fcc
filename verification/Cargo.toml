[package]
name = "bandcamp_dl"
version = "0.1.0"
edition = "2021"
publish = false

[dependencies]
htmlize = { version = "=1.1.0", features = ["unescape"] }
fastrand = "=2.5.0"
serde = { version = "*", features = ["derive"] }
serde_json = "*"
reqwest = { version = "*", default-features = false, features = ["cookies"] }
reqwest-middleware = "*"
reqwest_cookie_store = "*"
cookie_store = "*"
cookie = "*"
http = "*"
tokio = { version = "*", features = ["rt-multi-thread", "macros", "time"] }
clap = { version = "*", features = ["derive"] }
anyhow = "*"
async-trait = "*"
trauma = "*"
