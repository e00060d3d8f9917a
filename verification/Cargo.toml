[package]
name = "marisjs"
version = "0.1.0"
edition = "2021"
publish = false

[dependencies]
serde_json = "=1.0.154"
serde = { version = "=1.0.229", features = ["derive"] }
swc_common = "=27.0.0"
swc_ecma_ast = { version = "=30.0.0", features = ["serde-impl"] }
swc_ecma_parser = "=47.0.0"
swc_ecma_visit = "=30.0.0"
clap = { version = "=4.6.7", features = ["derive"] }
notify = "=8.2.1"
rmcp = { version = "=3.8.0", features = ["server", "transport-io", "macros"] }
schemars = "=1.2.3"
tokio = { version = "=1.54.1", features = ["macros", "rt-multi-thread", "io-std"] }
anyhow = "=1.0.104"
