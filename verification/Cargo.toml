[package]
name = "ana"
version = "0.1.0"
edition = "2021"
publish = false

[dependencies]
async-trait = "=0.1.92"
directories = "=6.0.0"
futures = "=0.3.34"
indexmap = "=2.14.2"
rattler_conda_types = "=0.52.1"
rmp-serde = "=1.3.1"
serde = { version = "=1.0.229", features = ["derive"] }
serde_json = "=1.0.154"
sha2 = "=0.11.1"
terminal_size = "=0.4.4"
thiserror = "=2.0.21"
tokio = { version = "=1.54.1", features = ["rt-multi-thread"] }
toml_edit = "=0.25.17"
url = "=2.5.8"
uv-normalize = "=0.0.65"
uv-pep440 = "=0.0.65"
uv-pep508 = "=0.0.65"

[dev-dependencies]
tempfile = "=3.27.0"
