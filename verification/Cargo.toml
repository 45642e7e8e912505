[package]
name = "imperator_save"
version = "0.1.0"
edition = "2021"
publish = false

[dependencies]
jomini = { version = "=0.37.2", features = ["envelope", "json"] }
serde = { version = "=1.0.229", features = ["derive"] }
thiserror = "=2.0.21"
