[package]
name = "oh-mcp-lindas"
version = "0.1.0"
edition = "2021"
publish = false

[dependencies]
sha2 = "0.10"
serde_json = "1"
serde = { version = "1", features = ["derive"] }
schemars = "1"
rmcp = { version = "*", features = ["server", "macros"] }
ureq = { version = "3", features = ["json"] }
time = { version = "0.3", features = ["formatting"] }
anyhow = "1"
