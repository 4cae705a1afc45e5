[package]
name = "raid_night"
version = "0.1.0"
edition = "2021"
publish = false

[dependencies]
rand = "0.8"
legion = "0.4"
macroquad = "0.3"
rusqlite = "0.29"
