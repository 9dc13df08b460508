[package]
name = "lunisolar"
version = "0.1.0"
edition = "2021"
publish = false

[dependencies]
chrono = { version = "=0.4.45", features = ["serde"] }
esbat = "=0.1.0"
minlambda = "=0.2.0"
minreq = { version = "=3.0.0", features = ["json-using-serde"] }
serde = { version = "=1.0.229", features = ["derive"] }
serde_urlencoded = "=0.7.1"
