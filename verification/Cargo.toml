[package]
name = "hero_crud"
version = "0.1.0"
edition = "2021"
publish = false

[dependencies]
diesel = { version = "1.4", features = ["postgres"] }
hyper = "0.12"
postgres = "0.17"
r2d2 = "0.8"
r2d2-diesel = "1.0"
redis = "*"
rocket = { version = "0.5", features = ["json"] }
serde_derive = "1"
