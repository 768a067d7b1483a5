[package]
name = "buzzardos_guest"
version = "0.1.0"
edition = "2021"
publish = false

[dependencies]
accesskit = "=0.25.2"
accesskit_unix = "=0.24.1"
anyhow = "=1.0.104"
fontdue = "=0.9.5"
gio = "=0.22.10"
glib = "=0.22.10"
gtk4 = "=0.11.5"
image = { version = "=0.25.10", default-features = false, features = ["png"] }
libc = "=0.2.191"
resvg = { version = "=0.49.0", default-features = false }
roxmltree = "=0.21.2"
serde = { version = "=1.0.229", features = ["derive"] }
serde_json = "=1.0.154"
sha2 = "=0.10.9"
shlex = "=1.3.0"
smithay-client-toolkit = "=0.20.0"
thiserror = "=2.0.21"
wayland-client = "=0.31.15"
wayland-protocols = { version = "=0.32.13", features = ["client", "staging"] }
wl-clipboard-rs = "=0.9.5"
