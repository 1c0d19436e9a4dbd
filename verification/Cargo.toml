[package]
name = "imagefx"
version = "0.1.0"
edition = "2021"
publish = false

[dependencies]
console_error_panic_hook = "=0.1.7"
js-sys = "=0.3.106"
serde = { version = "=1.0.229", features = ["derive"] }
wasm-bindgen = "=0.2.129"
wasm-bindgen-futures = "=0.4.79"
web-sys = { version = "=0.3.106", features = [
    "Window",
    "Navigator",
    "Gpu",
    "GpuAdapter",
    "GpuAutoLayoutMode",
    "GpuBuffer",
    "GpuBufferDescriptor",
    "GpuComputePipeline",
    "GpuComputePipelineDescriptor",
    "GpuDevice",
    "GpuExtent3dDict",
    "GpuOrigin3dDict",
    "GpuProgrammableStage",
    "GpuQueue",
    "GpuShaderModule",
    "GpuShaderModuleDescriptor",
    "GpuTexelCopyBufferLayout",
    "GpuTexelCopyTextureInfo",
    "GpuTexture",
    "GpuTextureDescriptor",
    "GpuTextureFormat",
    "gpu_texture_usage",
] }
