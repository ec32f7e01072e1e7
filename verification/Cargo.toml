[package]
name = "csv_recorder"
version = "0.1.0"
edition = "2021"
publish = false

[dependencies]
chrono = "=0.4.45"
csv = "=1.4.0"
log = "=0.4.34"
msr = "=0.2.0"
