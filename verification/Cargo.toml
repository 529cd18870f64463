[package]
name = "asound_conf_wizard"
version = "0.1.0"
edition = "2021"
publish = false

[dependencies]
alsa = "*"
colored = "*"
comfy-table = "*"
glob = "*"
itertools = "*"
which = "*"
