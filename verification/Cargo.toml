[package]
name = "modlet_xml"
version = "0.1.0"
edition = "2021"
publish = false

[dependencies]
quick-xml = "=0.31.0"
color-eyre = "=0.6.5"
console = "=0.16.6"
eyre = "=0.6.14"
indicatif = "=0.18.6"
rayon = "=1.12.0"
