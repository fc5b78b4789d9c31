[package]
name = "esm_resolver"
version = "0.1.0"
edition = "2021"
publish = false

[dependencies]
base64 = "=0.23.1"
lightningcss = { version = "=1.0.0-alpha.72", features = ["serde"] }
parcel_sourcemap = "*"
path-slash = "=0.2.1"
pathdiff = "=0.2.3"
percent-encoding = "=2.3.2"
serde = { version = "=1.0.229", features = ["derive"] }
serde_json = { version = "=1.0.151", features = ["preserve_order"] }
serde-wasm-bindgen = "*"
swc_atoms = "*"
swc_common = { version = "*", features = ["sourcemap"] }
swc_ecma_transforms = { version = "*", features = ["react", "typescript", "proposal", "optimization"] }
swc_ecmascript = { version = "*", features = ["parser", "codegen", "visit", "utils"] }
url = "=2.5.8"
wasm-bindgen = "*"
