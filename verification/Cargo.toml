[package]
name = "nodo"
version = "0.1.0"
edition = "2021"
publish = false

[dependencies]
pulldown-cmark = { version = "0.8", default-features = false }
colored = "2"
anyhow = "1"
structopt = "0.3"
clap = "2"
dirs = "5"
git2 = "0.13"
lazy_static = "1"
log = "0.4"
simple_logger = "1"
thiserror = "1"
bat = "0.15"
