[package]
name = "rcl_core"
version = "0.1.0"
edition = "2021"
publish = false

[dependencies]
console_error_panic_hook = "*"
dashmap = "*"
js-sys = "*"
oxc_allocator = "=0.143.0"
oxc_ast = { version = "=0.143.0", features = ["serialize"] }
oxc_parser = "=0.143.0"
oxc_resolver = "=11.24.3"
oxc_span = "=0.143.0"
serde = { version = "1", features = ["derive"] }
serde_json = { version = "=1.0.154", features = ["preserve_order", "unbounded_depth"] }
serde-wasm-bindgen = "*"
tokio = { version = "1", features = ["io-std", "macros", "rt-multi-thread"] }
tower-lsp = "=0.20.0"
wasm-bindgen = "*"
zed_extension_api = "*"
