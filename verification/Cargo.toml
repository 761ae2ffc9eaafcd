[package]
name = "relay_selector"
version = "0.1.0"
edition = "2021"
publish = false

[dependencies]
wasm-bindgen = "*"
js-sys = "*"
web-sys = { version = "*", features = ["console"] }
wasm-bindgen-futures = "*"
serde-wasm-bindgen = "*"
serde = { version = "*", features = ["derive"] }
futures = "*"
indexed_db_futures = { version = "*", features = ["serde", "cursors", "streams"] }
console_error_panic_hook = "*"
