[package]
name = "investments_forecasting"
version = "0.1.0"
edition = "2021"
publish = false

[dependencies]
calamine = "*"
chrono = "*"
clap = { version = "*", features = ["derive"] }
gnuplot = "*"
log = "*"
simple_logger = "*"
