[package]
name = "axiom_profiler"
version = "0.1.0"
edition = "2021"
publish = false

[dependencies]
fxhash = "0.2"
semver = "1"
petgraph = "0.6"
primal = "0.3"
typed-index-collections = "3.1"
serde = { version = "1", features = ["derive"] }
num-format = "0.4"
log = "0.4"
wasm-timer = "0.2"
yew = { version = "0.20", features = ["csr"] }
yew-agent = "0.2"
wasm-bindgen = "0.2"
wasm-bindgen-futures = "0.4"
web-sys = { version = "0.3", features = ["Window", "HtmlElement", "Element", "Event", "HtmlCollection", "console"] }
viz-js = "3"
