[package]
name = "nova_core"
version = "0.1.0"
edition = "2021"
publish = false

[dependencies]
ahash = "=0.8.12"
fast-float = "=0.2.0"
oxc_allocator = "=0.139.0"
oxc_ast = "=0.139.0"
oxc_ecmascript = "=0.139.0"
oxc_parser = "=0.139.0"
oxc_span = "=0.139.0"
