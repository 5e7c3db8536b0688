[package]
name = "apt_decoder"
version = "0.1.0"
edition = "2021"
publish = false

[dependencies]
image = { version = "=0.25.10", default-features = false, features = ["png"] }
hound = "=3.5.1"
clap = { version = "=4.6.7", features = ["cargo"] }
indicatif = "=0.18.6"
thiserror = "=2.0.21"
eframe = { version = "=0.37.0", default-features = false, features = ["glow", "default_fonts", "x11"] }
rfd = { version = "=0.17.2", default-features = false, features = ["xdg-portal"] }
