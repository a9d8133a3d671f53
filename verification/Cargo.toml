[package]
name = "reqlang_expr"
version = "0.8.0"
edition = "2021"
publish = false

[dependencies]
serde_json = "1"
line-col = "*"
codespan-reporting = "0.11.1"
clap = { version = "4.5", features = ["derive"] }
