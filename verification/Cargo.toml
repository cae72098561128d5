[package]
name = "umbriel_config"
version = "0.1.0"
edition = "2021"
publish = false

[dependencies]
semver = "=1.0.28"
serde = { version = "=1.0.229", features = ["derive"] }
ureq = { version = "=3.5.1", features = ["json"] }
glow = "=0.18.0"
khronos-egl = { version = "=6.0.0", features = ["dynamic"] }
similar = "2"
