[package]
name = "plotterdesigner"
version = "0.1.0"
edition = "2021"
publish = false

[dependencies]
eframe = { version = "=0.37.0", default-features = false, features = ["glow", "default_fonts", "x11"] }
egui = { version = "=0.37.0", features = ["serde"] }
kurbo = { version = "0.13", features = ["serde"] }
rand = "0.9"
rfd = "*"
ron = "*"
serde = { version = "1", features = ["derive"] }
ttf-parser = "*"
usvg = "*"
uuid = { version = "1", features = ["v4", "serde"] }
voronoice = "*"
