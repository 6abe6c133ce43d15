[package]
name = "adventure"
version = "0.1.0"
edition = "2021"
publish = false

[dependencies]
sha1 = "=0.10.7"
serde = { version = "=1.0.229", features = ["derive"] }
ron = "=0.8.1"
rmp-serde = "=1.3.1"
serde_json = "=1.0.154"
glam = "=0.29.3"
smol_str = "=0.2.2"
string-interner = "=0.17.0"
guillotiere = "=0.6.2"
bitflags = "=2.13.2"
thiserror = "=1.0.69"
smallvec = "=1.16.4"
crossbeam-channel = "=0.5.17"
rhai = "=1.27.0"
image = { version = "0.25", default-features = false, features = ["png", "jpeg"] }
bytemuck = { version = "1", features = ["derive"] }
tracing = "0.1"
tracing-subscriber = { version = "0.3", features = ["env-filter"] }
bevy_ecs = "0.14"
