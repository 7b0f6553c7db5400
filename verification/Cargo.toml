[package]
name = "enrichment_pipeline"
version = "0.1.0"
edition = "2021"
publish = false

[dependencies]
dotenv = "*"
env_logger = "*"
futures = "*"
log = "*"
rdkafka = "*"
serde = { version = "*", features = ["derive"] }
serde_json = "*"
tokio = { version = "*", features = ["rt-multi-thread", "macros", "signal", "time"] }
vader-sentimental = "*"
