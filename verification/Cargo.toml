[package]
name = "langbda"
version = "0.1.0"
edition = "2021"
publish = false

[dependencies]
derive_more = { version = "*", features = ["display", "from"] }
env_logger = "*"
graphviz-rust = "*"
lasso = { version = "*", features = ["multi-threaded"] }
log = "*"
multimap = "*"
pest = "*"
pest_derive = "*"
