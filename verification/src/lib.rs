//! Verified core of the SSIMULACRA2 Vulkan scorer: the integer and byte-level
//! logic around the GPU and floating-point pipeline (PNG chunk policy and
//! plane extraction, dispatch geometry, push-constant and SPIR-V word layouts,
//! the scale chain, the stage profiler, dump-file framing and the CLI's
//! decisions).
pub mod blur;
pub mod bytes;
pub mod cli;
pub mod context;
pub mod cpu;
pub mod gpu_pipeline;
pub mod oracle_dump;
pub mod order;
pub mod pipeline;
pub mod profile;
