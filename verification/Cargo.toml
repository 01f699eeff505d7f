[package]
name = "catshi"
version = "0.1.0"
edition = "2021"
publish = false

[dependencies]
rand = "*"
anyhow = "*"
axum = "*"
clap = { version = "*", features = ["derive"] }
dotenvy = "*"
log = "*"
serde = { version = "*", features = ["derive"] }
serenity = "*"
simplelog = "*"
sqlx = { version = "*", default-features = false, features = ["postgres", "runtime-tokio", "macros"] }
strum = "*"
strum_macros = "*"
tokio = { version = "*", features = ["full"] }
trait-variant = "*"
