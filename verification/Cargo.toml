[package]
name = "netprobe"
version = "0.1.0"
edition = "2021"
publish = false

[dependencies]
ipnet = "2"
clap = "4"
log = "0.4"
simplelog = "*"
threadpool = "1"
dns-lookup = "2"
reqwest = { version = "*", default-features = false, features = ["blocking", "rustls-tls"] }
