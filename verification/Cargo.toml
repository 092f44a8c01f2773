[package]
name = "dotfiles_installer"
version = "0.1.5"
edition = "2021"
publish = false

[dependencies]
backoff = "*"
chrono = "*"
clap = { version = "*", features = ["derive"] }
colored = "*"
dirs = "*"
fern = "*"
gfxinfo = "*"
git2 = { version = "*", default-features = false }
indicatif = "*"
inquire = "*"
log = "*"
