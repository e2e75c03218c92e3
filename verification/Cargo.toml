[package]
name = "xml_to_tree"
version = "0.1.0"
edition = "2021"
publish = false

[dependencies]
quick-xml = "0.22.0"
neon = "*"
