[package]
name = "converter"
version = "0.1.0"
edition = "2021"
publish = false

[dependencies]
base64 = "=0.22.1"
comrak = { version = "=0.59.0", default-features = false }
csv = "=1.4.0"
flate2 = "=1.1.10"
image = { version = "=0.25.10", default-features = false, features = ["png", "jpeg", "gif", "bmp", "tiff", "webp", "avif", "ico", "qoi", "tga", "hdr", "dds", "exr"] }
lopdf = { version = "=0.46.0", default-features = false }
lzma-rs = "=0.3.0"
resvg = "=0.49.0"
rtf-parser = "=0.4.3"
serde = { version = "=1.0.229", features = ["derive"] }
serde_json = "=1.0.154"
symphonia = { version = "=0.5.5", features = ["mp3"] }
hound = "=3.5.1"
tar = "=0.4.46"
zip = { version = "=9.2.2", default-features = false, features = ["deflate"] }
sevenz-rust2 = { version = "=0.24.2", default-features = false, features = ["compress"] }
leptos = { version = "=0.8.23", features = ["csr"] }
wasm-bindgen = "=0.2.130"
wasm-bindgen-futures = "=0.4.80"
web-sys = { version = "=0.3.107", features = ["Blob", "BlobPropertyBag", "Url", "Window", "Document", "Element", "HtmlElement", "HtmlInputElement", "HtmlAnchorElement", "File", "FileList", "DragEvent", "DataTransfer", "MouseEvent", "Event", "EventTarget", "console"] }
console_error_panic_hook = "=0.1.7"
