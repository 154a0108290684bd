[package]
name = "ui0"
version = "0.1.0"
edition = "2021"
publish = false

[dependencies]
oxc_allocator = "0.30"
oxc_ast = "0.30"
oxc_codegen = "0.30"
oxc_parser = "0.30"
oxc_semantic = "0.30"
oxc_span = "0.30"
oxc_syntax = "0.30"
oxc_transformer = "0.30"
oxc_traverse = "0.30"
axum = "0.7"
clap = { version = "4", features = ["derive"] }
console = "0.15"
tokio = { version = "1", features = ["rt-multi-thread", "net"] }
webbrowser = "1"
