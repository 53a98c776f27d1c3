[package]
name = "spool"
version = "0.1.0"
edition = "2021"
publish = false

[dependencies]
glam = "=0.34.1"
js-sys = "=0.3.106"
wasm-bindgen = "=0.2.129"
wasm-bindgen-futures = "=0.4.79"
console_error_panic_hook = "=0.1.7"
meshtext = "=0.3.2"
web-sys = { version = "=0.3.106", features = ["AudioContext", "BaseAudioContext", "AudioBuffer", "AudioBufferSourceNode", "AudioScheduledSourceNode", "AudioNode", "AudioParam", "GainNode", "AudioDestinationNode", "Window", "Document", "Element", "HtmlElement", "Node", "EventTarget", "Event", "UiEvent", "HtmlCanvasElement", "CanvasRenderingContext2d", "MouseEvent", "KeyboardEvent", "Response"] }
