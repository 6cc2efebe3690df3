[package]
name = "hyprgradient"
version = "0.1.0"
edition = "2021"
publish = false

[dependencies]
anyhow = "=1.0.104"
gl = "=0.14.0"
inotify = "=0.11.5"
khronos-egl = { version = "=6.0.0", features = ["dynamic"] }
libloading = "=0.8.9"
rand = "=0.10.3"
serde = { version = "=1.0.229", features = ["derive"] }
smithay-client-toolkit = { version = "=0.21.1", default-features = false, features = ["calloop"] }
toml = "=1.1.8"
wayland-client = "=0.31.15"
wayland-egl = "=0.32.11"
wayland-sys = { version = "=0.31.11", features = ["dlopen"] }
