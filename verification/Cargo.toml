[package]
name = "calibre_opf_parser"
version = "0.1.0"
edition = "2021"
publish = false

[dependencies]
quick-xml = "=0.31.0"
chrono = "=0.4.45"
urlencoding = "=2.1.3"
