[package]
name = "sitebuilder"
version = "0.1.0"
edition = "2021"
publish = false

[dependencies]
argparse = "=0.2.2"
comrak = { version = "0.18", default-features = false }
neoercities = { version = "=0.1.1", features = ["site_info"] }
thiserror = "=2.0.21"
walkdir = "=2.5.0"
