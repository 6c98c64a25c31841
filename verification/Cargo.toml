[package]
name = "everest"
version = "0.1.0"
edition = "2021"
publish = false

[dependencies]
imap = { version = "=3.0.0-alpha.15", default-features = false }
maildir = "=0.6.6"
thiserror = "=1.0.69"

[dev-dependencies]
imap = { version = "=3.0.0-alpha.15", default-features = false, features = ["test_helpers"] }
