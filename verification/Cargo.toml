[package]
name = "geo_explorer"
version = "0.1.0"
edition = "2021"
publish = false

[dependencies]
serde = { version = "1", features = ["derive"] }
serde_json = "1"
rand = "0.9"
geo = "*"
geojson = "*"
ratatui = "*"
crossterm = "*"
