[package]
name = "rusty_library_shrinker"
version = "0.1.0"
edition = "2021"
publish = false

[dependencies]
anyhow = "*"
clap = { version = "*", features = ["derive"] }
crossbeam-channel = "*"
epub = "*"
glob = "*"
image = { version = "*", default-features = false, features = ["jpeg", "png", "bmp", "webp"] }
indicatif = "*"
jpeg2k = "*"
libc = "*"
log = "*"
moxcms = "*"
once_cell = "*"
rayon = "*"
simplelog = "*"
tempfile = "*"
time = "*"
unrar = "*"
walkdir = "*"
webp = { version = "*", default-features = false }
zip = { version = "*", default-features = false, features = ["deflate"] }
