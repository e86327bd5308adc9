[package]
name = "vizia_core"
version = "0.1.0"
edition = "2021"
publish = false

[dependencies]
morphorm = "=0.9.0"
better_any = "=0.2.1"
chumsky = "=0.8.0"
ariadne = "=0.1.5"
syn = "=1.0.109"
quote = "=1.0.47"
proc-macro2 = "=1.0.107"
femtovg = "=0.27.0"
parley = "=0.12.0"
swash = "=0.2.10"
raw-window-handle = "=0.6.2"
baseview = { version = "=0.4.1", features = ["opengl"] }
