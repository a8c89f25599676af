[package]
name = "xs_file_transfer"
version = "0.1.0"
edition = "2021"
publish = false

[dependencies]
bytemuck = "=1.25.2"
directories = "=6.0.0"
displaydoc = "=0.2.7"
thiserror = "=2.0.21"
env_logger = "=0.11.11"
egui = "=0.37.0"
eframe = { version = "=0.37.0", default-features = false, features = ["glow", "default_fonts", "x11"] }
rfd = { version = "=0.17.2", default-features = false, features = ["gtk3"] }
