[package]
name = "switchbox"
version = "0.1.0"
edition = "2021"
publish = false

[dependencies]
futures-util = "0.3"
i18n-embed = { version = "0.16", features = ["fluent-system", "desktop-requester"] }
open = "5"
pipewire = "0.9"
tokio = { version = "1", features = ["time"] }
