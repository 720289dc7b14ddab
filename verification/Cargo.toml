[package]
name = "online_board_game"
version = "0.1.0"
edition = "2021"
publish = false

[dependencies]
tungstenite = "*"
log = "0.4"
log4rs = "*"

[dev-dependencies]
serde_json = "1"
