[package]
name = "projecteur_core"
version = "0.1.0"
edition = "2021"
publish = false

[dependencies]
cxx-qt = "*"
cxx-qt-lib = "*"
libc = "*"
linux-raw-sys = { version = "*", features = ["ioctl"] }
serde_json = "*"
wayland-client = "*"
wayland-scanner = "*"
zbus = "*"
