[package]
name = "someip"
version = "0.1.0"
edition = "2021"
publish = false

[dependencies]
quick-xml = "0.22"
regex = "1"
voca_rs = "1"
url = "2"
