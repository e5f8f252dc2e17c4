[package]
name = "tomt_bevycss"
version = "0.1.0"
edition = "2021"
publish = false

[dependencies]
bevy = { version = "0.14", default-features = false, features = ["bevy_asset"] }
cssparser = "0.34"
cssparser-color = "0.2"
smallvec = "1"
thiserror = "1"
