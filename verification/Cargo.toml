[package]
name = "newsletter"
version = "0.1.0"
edition = "2021"
publish = false

[dependencies]
actix-web = { version = "=4.18.1", default-features = false }
form_urlencoded = "=1.2.2"
serde = "=1.0.229"

[dev-dependencies]
serde_urlencoded = "=0.7.1"
