[package]
name = "retained_ui"
version = "0.1.0"
edition = "2021"
publish = false

[dependencies]
csscolorparser = "=0.9.0"
taffy = "=0.14.0"
html5ever = "=0.39.0"
markup5ever_rcdom = "=0.39.0"
tiny-skia = "=0.12.0"
fontdue = "=0.9.4"
