[package]
name = "project_analyser"
version = "0.1.0"
edition = "2021"
publish = false

[dependencies]
chrono = "0.4"
csv = "1"
preferences = "1"
log = "0.4"
fern = "0.6"
