[package]
name = "mapscan-route"
version = "0.1.0"
edition = "2021"
publish = false

[dependencies]
libc = "0.2"

[dependencies.windows-sys]
version = "0.61"
features = [
    "Win32_Foundation",
    "Win32_NetworkManagement_IpHelper",
    "Win32_NetworkManagement_Ndis",
    "Win32_Networking_WinSock",
]
