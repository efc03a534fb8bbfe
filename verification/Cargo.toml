[package]
name = "schema_gen"
version = "0.1.0"
edition = "2021"
publish = false

[dependencies]
sbor = "=1.4.0"
scrypto = "=1.4.0"
radix-common = "=1.4.0"
hex = "=0.4.3"
serde = { version = "=1.0.229", features = ["derive"] }
serde_json = "=1.0.154"
clap = { version = "=4.6.7", features = ["derive"] }
reqwest = { version = "=0.13.5", features = ["blocking", "json"] }
tokio = { version = "=1.54.1", features = ["macros", "rt-multi-thread"] }
vercel_runtime = "=2.4.1"
http-body-util = "=0.1.5"
