[package]
name = "fourget"
version = "0.1.0"
edition = "2021"
publish = false

[dependencies]
clap = "2"
hyper = "0.10"
num_cpus = "1"
regex = "1"
scraper = "*"
threadpool = "1"
