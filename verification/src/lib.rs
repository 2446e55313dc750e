//! Planning of Vulkan descriptor set layouts, pipelines and render passes from
//! shader reflection, with every decision verified.
pub mod descriptor;
pub mod device;
pub mod merge;
pub mod module_scan;
pub mod pipeline;
pub mod render_pass;
pub mod sampler;
pub mod spirv;
