[package]
name = "stats_collector"
version = "0.1.0"
edition = "2021"
publish = false

[dependencies]
cadence = "0.27"
log = "0.4"
prost = "0.11"
