[package]
name = "team_solver"
version = "0.1.0"
edition = "2021"
publish = false

[dependencies]
rand = "*"
axum = "*"
serde = { version = "*", features = ["derive"] }
serde_json = "*"
shuttle-axum = "*"
shuttle-runtime = "*"
tower = { version = "*", features = ["buffer", "limit"] }
tower-http = { version = "*", features = ["cors"] }
