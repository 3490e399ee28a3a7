[package]
name = "local_source"
version = "0.1.0"
edition = "2021"
publish = false

[dependencies]
base64 = "0.22"
bytesize = "*"
clap = { version = "4", features = ["derive"] }
conflate = "*"
crossbeam-channel = "0.5"
derive_setters = "0.1"
displaydoc = "0.2"
ignore = "0.4"
jiff = { version = "0.2", features = ["serde"] }
log = "0.4"
rayon = "1"
serde = { version = "1", features = ["derive"] }
serde_with = "3"
thiserror = "2"
windows-sys = { version = "0.59", features = ["Win32_Foundation", "Win32_Security", "Win32_Security_Authorization", "Win32_Storage_FileSystem", "Win32_System_IO", "Win32_System_Ioctl"] }
xattr = "1"

[dev-dependencies]
serde_json = "1"
