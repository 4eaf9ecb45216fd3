[package]
name = "edit_xml"
version = "0.1.0"
edition = "2021"
publish = false

[dependencies]
quick-xml = "*"
encoding_rs = "*"
