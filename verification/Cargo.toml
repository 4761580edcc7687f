[package]
name = "metric_tasks"
version = "0.1.0"
edition = "2021"
publish = false

[dependencies]
futures = "*"
bytes = "*"
