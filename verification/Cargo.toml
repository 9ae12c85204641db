[package]
name = "dsh_launcher"
version = "0.1.0"
edition = "2021"
publish = false

[dependencies]
image = { version = "=0.25.10", default-features = false, features = ["ico"] }
tray-icon = { version = "=0.21.3", default-features = false }
winit = { version = "=0.30.13", default-features = false, features = ["x11"] }
windows = { version = "0.58", features = ["Data_Xml_Dom", "UI_Notifications"] }
windows-sys = { version = "=0.59.0", features = [
    "Win32_Foundation",
    "Win32_NetworkManagement_IpHelper",
    "Win32_NetworkManagement_Ndis",
    "Win32_Networking_WinHttp",
    "Win32_Networking_WinSock",
    "Win32_Security",
    "Win32_System_Diagnostics_ToolHelp",
    "Win32_System_JobObjects",
    "Win32_System_Kernel",
    "Win32_System_Registry",
    "Win32_System_SystemInformation",
    "Win32_System_Threading",
    "Win32_UI_Shell",
    "Win32_UI_WindowsAndMessaging",
] }
