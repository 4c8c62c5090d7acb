[package]
name = "mtoh"
version = "0.1.0"
edition = "2021"
publish = false

[dependencies]
base64 = "0.13"
emojis = "*"
grass = "*"
handlebars = "*"
pulldown-cmark = { version = "0.9", default-features = false }
serde = { version = "1", features = ["derive"] }
serde_json = "1"
syntect = { version = "5", default-features = false, features = ["parsing", "default-syntaxes", "default-themes", "html", "regex-fancy", "dump-load"] }
toml = "0.5"
