[package]
name = "git_pivot"
version = "0.1.0"
edition = "2021"
publish = false

[dependencies]
chrono = { version = "0.4", default-features = false, features = ["std"] }
docopt = "1"
git2 = { version = "*", default-features = false }
serde = { version = "1", features = ["derive"] }
serde_derive = "1"
