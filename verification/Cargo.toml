[package]
name = "cosmic-ext-window-daemon"
version = "0.1.0"
edition = "2021"
publish = false

[dependencies]
calloop = { version = "=0.14.5", features = ["signals"] }
calloop-wayland-source = "=0.4.1"
cosmic-client-toolkit = "=0.2.0"
cosmic-protocols = { version = "=0.2.0", features = ["client"] }
nix = { version = "=0.30.1", features = ["signal"] }
regex = "=1.13.1"
smithay-client-toolkit = { version = "=0.20.0", default-features = false, features = ["calloop"] }
tracing = "=0.1.44"
tracing-subscriber = { version = "=0.3.23", features = ["env-filter"] }
wayland-client = "=0.31.15"
wayland-protocols = { version = "=0.32.13", features = ["client", "staging"] }
