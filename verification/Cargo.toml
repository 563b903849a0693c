[package]
name = "mbwatch"
version = "0.1.0"
edition = "2021"
publish = false

[dependencies]
imap = { version = "3.0.0-alpha.12", default-features = false, features = ["rustls-tls"] }
log = "0.4"
simple_logger = "5"
