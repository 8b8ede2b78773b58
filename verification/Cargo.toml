[package]
name = "game_plugin"
version = "0.1.0"
edition = "2021"
publish = false

[dependencies]
bevy = { version = "=0.5.0", default-features = false, features = ["render"] }
bevy_kira_audio = { version = "0.5", default-features = false, features = ["ogg"] }
darling = "=0.10.2"
rand = "=0.8.8"
rand_distr = "=0.4.3"
time = "=0.3.55"
