[package]
name = "monman"
version = "0.1.0"
edition = "2021"
publish = false

[dependencies]
anyhow = "1"
semver = "1"
serde = { version = "1", features = ["derive"] }
serde_json = "1"
sha2 = "0.10"
ureq = { version = "3", default-features = false, features = ["rustls", "json"] }
eframe = { version = "0.34", default-features = false, features = ["default_fonts", "glow", "x11"] }
hidapi = { version = "2", default-features = false, features = ["linux-native-basic-udev", "windows-native"] }
windows = { version = "0.62.2", features = [
    "Win32_Devices_Display",
    "Win32_Devices_FunctionDiscovery",
    "Win32_Foundation",
    "Win32_Graphics_Gdi",
    "Win32_Media_Audio",
    "Win32_Security",
    "Win32_System_Com",
    "Win32_System_Com_StructuredStorage",
    "Win32_System_LibraryLoader",
    "Win32_System_Threading",
    "Win32_System_Variant",
    "Win32_UI_Input_KeyboardAndMouse",
    "Win32_UI_Shell",
    "Win32_UI_Shell_PropertiesSystem",
    "Win32_UI_WindowsAndMessaging",
] }
