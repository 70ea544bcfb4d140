[package]
name = "flack_serve"
version = "0.1.0"
edition = "2021"
publish = false

[dependencies]
uuid = { version = "*", features = ["v7"] }
actix-web = "*"
actix-files = "*"
clap = { version = "*", features = ["derive"] }
env_logger = "*"
log = "*"
url = "*"
serde = { version = "*", features = ["derive"] }
nix-bindings-expr = "*"
nix-bindings-fetchers = "*"
nix-bindings-flake = "*"
nix-bindings-store = "*"
nix-bindings-util = "*"
