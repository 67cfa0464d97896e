[package]
name = "psag_cc"
version = "0.1.0"
edition = "2021"
publish = false

[dependencies]
url = "2"
rand = "0.8"
handlebars = "*"
hyper = "0.11"
futures = "0.1"
futures-cpupool = "0.1"
diesel = { version = "1", features = ["postgres"] }
r2d2 = "0.8"
r2d2-diesel = "1"
env_logger = "0.5"
log = "0.4"
chrono = "0.4"
ansi_term = "0.11"
num_cpus = "1"
