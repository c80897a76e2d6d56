[package]
name = "waterui-tui"
version = "0.1.0"
edition = "2021"
publish = false

[dependencies]
base64-simd = "=0.8.0"
crossterm = "=0.29.0"
executor-core = { version = "=0.7.1", features = ["async-task"] }
flate2 = "=1.1.10"
nami = "=0.11.2"
ratatui = { version = "=0.30.2", default-features = false, features = ["crossterm", "scrolling-regions"] }
rustix = { version = "=1.1.6", features = ["termios"] }
tracing = { version = "=0.1.44", default-features = false }
unicode-width = "=0.2.3"
waterui-core = { version = "=0.5.1", default-features = false }
waterui-layout = { version = "=0.5.1", default-features = false }
waterui-graphics = { version = "=0.5.1", default-features = false }
waterui-text = { version = "=0.5.1", default-features = false }
waterui-controls = { version = "=0.5.1", default-features = false }
waterui-form = { version = "=0.5.1", default-features = false }
waterui-navigation = { version = "=0.5.1", default-features = false }
waterui-backend-core = { version = "=0.5.2", default-features = false }
waterui-icon = { version = "=0.5.1", default-features = false }
