[package]
name = "mlt_geojson"
version = "0.1.0"
edition = "2021"
publish = false

[dependencies]
anyhow = "=1.0.104"
clap = { version = "=4.6.7", features = ["derive"] }
geojson = "=1.0.0"
martin-tile-utils = "=0.6.12"
mlt-core = "=0.12.5"
serde_json = "=1.0.154"
