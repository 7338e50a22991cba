[package]
name = "uri_routing"
version = "0.1.0"
edition = "2021"
publish = false

[dependencies]
percent-encoding = "2"
unicode-xid = "0.2"
