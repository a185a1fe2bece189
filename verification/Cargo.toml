[package]
name = "discord_theme_editor"
version = "0.1.0"
edition = "2021"
publish = false

[dependencies]
asar = "*"
which = "*"
serde = { version = "1", features = ["derive"] }
serde_json = "1"
prisma = "*"
angular-units = "*"
