[package]
name = "git_assist"
version = "0.1.0"
edition = "2021"
publish = false

[dependencies]
git-url-parse = "=0.6.0"
git2 = "=0.21.0"
octocrab = "=0.53.1"
tokio = { version = "=1.53.2", features = ["macros", "rt-multi-thread"] }
clap = { version = "=4.6.7", features = ["derive"] }
inquire = "=0.9.4"
anyhow = "=1.0.104"
shellexpand = "=3.1.2"
jsonwebtoken = "=10.4.0"
secrecy = "=0.10.3"
