[package]
name = "tyr_rust"
version = "0.1.0"
edition = "2021"
publish = false

[dependencies]
regex = "*"
glob = "*"
colored = "*"
http = "*"
mime = "*"
html2md = "*"
reqwest = { version = "*", default-features = false, features = ["json", "blocking"] }
sqlparser = "*"
syntect = { version = "*", default-features = false, features = ["default-fancy"] }
clap = "*"
lazy_static = "*"
tokio = { version = "*", features = ["macros", "rt-multi-thread"] }
anyhow = "*"
thiserror = "*"
rayon = "*"
