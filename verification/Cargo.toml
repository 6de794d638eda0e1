[package]
name = "libpass"
version = "0.1.0"
edition = "2021"
publish = false

[dependencies]
directories = "*"
gpgme = "*"
log = "0.4"
thiserror = "1"
