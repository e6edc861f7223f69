[package]
name = "rustlock"
version = "0.1.0"
edition = "2021"
publish = false

[dependencies]
zeroize = "1"
smithay-client-toolkit = "*"
wayland-client = "*"
wayland-protocols-wlr = { version = "*", features = ["client"] }
cairo-rs = "*"
chrono = "*"
clap = { version = "*", features = ["derive"] }
serde = { version = "*", features = ["derive"] }
toml = "*"
log = "*"
pam-client = "*"
whoami = "*"
image = { version = "*", default-features = false, features = ["png", "jpeg"] }
fastblur = "*"
rand = "*"
anyhow = "*"
mpris = "*"
zbus = "*"
tokio = { version = "*", features = ["rt-multi-thread", "time", "sync", "macros"] }
gdk-pixbuf = "*"
resvg = "*"
