[package]
name = "irongraph_core"
version = "0.1.0"
edition = "2021"
publish = false

[dependencies]
regex = "=1.13.1"
shlex = "=2.0.1"
uuid = { version = "=1.27.0", features = ["v4"] }
syn = { version = "=3.0.6", features = ["full", "visit-mut"] }
prettyplease = "=0.3.0"
oxc_allocator = "=0.139.0"
oxc_parser = "=0.139.0"
oxc_span = "=0.139.0"
oxc_ast = "=0.139.0"
oxc_ast_visit = "=0.139.0"
oxc_codegen = "=0.139.0"
portable-pty = "=0.9.0"
serde = { version = "=1.0.229", features = ["derive"] }
serde_json = "=1.0.151"
grep-regex = "=0.1.14"
grep-searcher = "=0.1.17"
ignore = "=0.4.33"
