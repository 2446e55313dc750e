# vk_backend

The decision-making half of a small Vulkan renderer backend, verified with Verus.

`src/` computes, from SPIR-V reflection, what the backend asks the driver to
create, and proves it:

- `sampler`: the immutable samplers that shader binding names ask for
  (`sampler_<filter><mipmap><address>`).
- `descriptor`: descriptor set layouts planned from reflected bindings, with the
  creation flags given per set.
- `merge`: merging the descriptor sets of several shader stages.
- `spirv`: the calls into `rspirv-reflect` and `byte-slice-cast`.
- `module_scan`: a scan of a SPIR-V module that tells whether rspirv-reflect
  can read it without panicking; reflection is only called on modules it admits.
- `pipeline`: compute and raster pipeline descriptions, their builders, and the
  plans of their layouts and shader stages.
- `render_pass`: render pass attachments and the references of the one subpass.
- `device`: queue family selection and the device extensions to enable.

`app/` holds the Vulkan calls (`ash`) that carry the plans out.
