[package]
name = "beagle"
version = "0.1.0"
edition = "2021"
publish = false

[dependencies]
ultraviolet = "*"
nalgebra-glm = "*"
num = "0.4"
num-derive = "*"
num-traits = "0.2"
image = { version = "*", default-features = false, features = ["png"] }
winapi = { version = "0.3", features = ["libloaderapi", "windef", "minwindef", "winuser", "unknwnbase", "winerror", "dxgi", "dxgiformat", "dxgitype", "windowsx", "d3d11", "d3dcommon"] }
