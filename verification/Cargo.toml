[package]
name = "gfx_core"
version = "0.1.0"
edition = "2021"
publish = false

[dependencies]
ash = "0.38"
ash-window = "0.13"
derive-new = "0.7"
image = { version = "0.25", default-features = false, features = ["png"] }
itertools = "0.13"
proc-macro2 = "1"
quote = "1"
raw-window-handle = "0.6"
syn = "2"
winit = { version = "0.29", default-features = false, features = ["rwh_06", "x11"] }
