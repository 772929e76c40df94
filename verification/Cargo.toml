[package]
name = "resist"
version = "0.1.0"
edition = "2021"
publish = false

[dependencies]
nalgebra = "*"
num-complex = "*"
thiserror = "*"
pest = "*"
pest_derive = "*"
eframe = { version = "*", default-features = false, features = ["default_fonts", "glow", "x11"] }
egui_plot = "*"
image = { version = "*", default-features = false, features = ["png"] }
