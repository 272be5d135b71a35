[package]
name = "lazy_java"
version = "0.1.0"
edition = "2021"
publish = false

[dependencies]
regex = "1"
maven-version = "*"
zip = { version = "*", default-features = false, features = ["deflate"] }
globset = "0.4"
serde = { version = "1", features = ["derive"] }
toml = "*"
clap = { version = "4", features = ["derive"] }
colored = "*"
log = "0.4"
walkdir = "2"
same-file = "1"
filetime = "0.2"
quick-xml = { version = "*", features = ["serialize"] }
thiserror = "*"
inquire = "*"
reqwest = { version = "*", default-features = false, features = ["blocking"] }
tokio = { version = "1", features = ["rt"] }
