[package]
name = "vtcast"
version = "0.1.0"
edition = "2021"
publish = false

[dependencies]
anyhow = "=1.0.104"
axum = { version = "=0.8.9", features = ["ws"] }
bytes = "=1.12.1"
clap = { version = "=4.6.7", features = ["derive"] }
dotenvy = "=0.15.7"
futures-util = "=0.3.34"
parking_lot = "=0.12.5"
rand = "=0.9.5"
reqwest = { version = "=0.12.28", default-features = false, features = ["json", "rustls-tls"] }
serde = { version = "=1.0.229", features = ["derive"] }
serde_json = "=1.0.154"
tokio = { version = "=1.54.1", features = ["full"] }
tokio-tungstenite = { version = "=0.26.2", features = ["rustls-tls-webpki-roots"] }
tracing = "=0.1.44"
tracing-subscriber = { version = "=0.3.23", features = ["env-filter"] }
webrtc = "=0.13.0"
windows = { version = "0.61", features = ["Win32_Foundation", "Win32_Graphics_Direct3D", "Win32_Graphics_Direct3D11", "Win32_Graphics_Direct3D_Fxc", "Win32_Graphics_Dxgi", "Win32_Graphics_Dxgi_Common", "Win32_Graphics_Gdi", "Win32_Media_MediaFoundation", "Win32_Security", "Win32_System_Com", "Win32_System_LibraryLoader", "Win32_System_Memory", "Win32_System_Threading", "Win32_System_Variant", "Win32_UI_HiDpi", "Win32_UI_WindowsAndMessaging"] }
windows-capture = "*"
