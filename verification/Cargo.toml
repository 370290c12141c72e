[package]
name = "xml_explorer"
version = "0.1.0"
edition = "2021"
publish = false

[dependencies]
crossterm = "0.27"
ratatui = "0.26"
memmap2 = "0.9"
