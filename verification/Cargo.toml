[package]
name = "virtual_branches"
version = "0.1.0"
edition = "2021"
publish = false

[dependencies]
anyhow = "1"
diffy = "0.3"
git2 = { version = "0.18", default-features = false, features = ["vendored-libgit2"] }
md5 = "0.7"
serde = { version = "1", features = ["derive"] }
slug = "0.1"
thiserror = "1"
url = "2"
