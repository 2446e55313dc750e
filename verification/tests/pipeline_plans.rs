use vk_backend::descriptor::{BindingKind, LayoutError};
use vk_backend::pipeline::{
    plan_compute_pipeline, plan_raster_pipeline, push_constant_range, shader_stage_flags,
    try_plan_compute_pipeline, try_plan_raster_pipeline,
    ComputePipelineDesc, DescBuildError, PipelineError, PushConstantRange, RasterShaderDesc,
    RasterStage, SHADER_STAGE_ALL_GRAPHICS, SHADER_STAGE_COMPUTE, SHADER_STAGE_FRAGMENT,
    SHADER_STAGE_VERTEX,
};
use vk_backend::sampler::{AddressMode, MipmapMode, SamplerDesc, TexelFilter};

fn op(opcode: u32, operands: &[u32]) -> Vec<u32> {
    let mut v = vec![((operands.len() as u32 + 1) << 16) | opcode];
    v.extend_from_slice(operands);
    v
}

fn string_words(s: &str) -> Vec<u32> {
    let mut bytes = s.as_bytes().to_vec();
    bytes.push(0);
    while bytes.len() % 4 != 0 {
        bytes.push(0);
    }
    bytes.chunks(4).map(|c| u32::from_le_bytes([c[0], c[1], c[2], c[3]])).collect()
}

/// A SPIR-V 1.0 module with a sampler named `sampler_name` at (set 0, binding 1)
/// and, if `with_buffer`, a storage buffer named `data` at (set `buffer_set`, binding 0).
fn module(sampler_name: &str, with_buffer: bool, buffer_set: u32) -> Vec<u8> {
    let mut w = vec![0x0723_0203, 0x0001_0000, 0, 16, 0];
    w.extend(op(17, &[1]));
    w.extend(op(14, &[0, 1]));
    let mut name = vec![3];
    name.extend(string_words(sampler_name));
    w.extend(op(5, &name));
    if with_buffer {
        let mut name = vec![7];
        name.extend(string_words("data"));
        w.extend(op(5, &name));
    }
    w.extend(op(71, &[3, 34, 0]));
    w.extend(op(71, &[3, 33, 1]));
    if with_buffer {
        w.extend(op(71, &[5, 3]));
        w.extend(op(71, &[7, 34, buffer_set]));
        w.extend(op(71, &[7, 33, 0]));
    }
    w.extend(op(26, &[1]));
    w.extend(op(32, &[2, 0, 1]));
    w.extend(op(59, &[2, 3, 0]));
    if with_buffer {
        w.extend(op(21, &[4, 32, 0]));
        w.extend(op(30, &[5, 4]));
        w.extend(op(32, &[6, 2, 5]));
        w.extend(op(59, &[6, 7, 2]));
    }
    w.iter().flat_map(|x| x.to_le_bytes()).collect()
}

/// The module's bytes read four at a time in this machine's byte order.
fn native_words(bytes: &[u8]) -> Vec<u32> {
    bytes.chunks(4).map(|c| u32::from_ne_bytes([c[0], c[1], c[2], c[3]])).collect()
}

#[test]
fn push_constants_only_when_some_bytes() {
    assert_eq!(push_constant_range(SHADER_STAGE_COMPUTE, 0), None);
    assert_eq!(
        push_constant_range(SHADER_STAGE_COMPUTE, 64),
        Some(PushConstantRange { stage_flags: SHADER_STAGE_COMPUTE, offset: 0, size: 64 })
    );
}

#[test]
fn raster_stages_map_to_shader_stage_bits() {
    assert_eq!(shader_stage_flags(RasterStage::Vertex), SHADER_STAGE_VERTEX);
    assert_eq!(shader_stage_flags(RasterStage::Pixel), SHADER_STAGE_FRAGMENT);
    assert_eq!(SHADER_STAGE_ALL_GRAPHICS, 0x1f);
}

#[test]
fn compute_builder_defaults_and_requirements() {
    let spirv = [0u8; 4];
    let d = ComputePipelineDesc::builder().spirv(&spirv).entry_name("main").build().unwrap();
    assert_eq!(d.entry_name, "main");
    assert_eq!(d.push_constants_bytes, 0);
    assert!(d.descriptor_set_layout_flags.is_none());
    let flags = [(0usize, 1u32)];
    let d = ComputePipelineDesc::builder()
        .entry_name("cs")
        .spirv(&spirv)
        .push_constants_bytes(16)
        .descriptor_set_layout_flags(&flags)
        .build()
        .unwrap();
    assert_eq!(d.push_constants_bytes, 16);
    assert_eq!(d.descriptor_set_layout_flags.unwrap(), &flags[..]);
    assert_eq!(ComputePipelineDesc::builder().entry_name("m").build().err(), Some(DescBuildError::MissingSpirv));
    assert_eq!(ComputePipelineDesc::builder().build().err(), Some(DescBuildError::MissingSpirv));
    assert_eq!(ComputePipelineDesc::builder().spirv(&spirv).build().err(), Some(DescBuildError::MissingEntryName));
}

#[test]
fn raster_builder_starts_from_stage_module_and_entry() {
    let spirv = [0u8; 8];
    let d = RasterShaderDesc::new(RasterStage::Pixel, &spirv, "ps_main").build().unwrap();
    assert_eq!(d.stage, RasterStage::Pixel);
    assert_eq!(d.spirv.len(), 8);
    assert_eq!(d.entry_name, "ps_main");
    assert_eq!(d.push_constants_bytes, 0);
    let d = RasterShaderDesc::new(RasterStage::Pixel, &spirv, "a")
        .stage(RasterStage::Vertex)
        .push_constants_bytes(4)
        .build()
        .unwrap();
    assert_eq!(d.stage, RasterStage::Vertex);
    assert_eq!(d.push_constants_bytes, 4);
}

#[test]
fn plans_a_compute_pipeline_from_reflection() {
    let spirv = module("sampler_llr", true, 2);
    let flags = [(2usize, 0x2u32)];
    let desc = ComputePipelineDesc::builder()
        .spirv(&spirv)
        .entry_name("main")
        .descriptor_set_layout_flags(&flags)
        .push_constants_bytes(12)
        .build()
        .unwrap();
    let plan = plan_compute_pipeline(&desc).unwrap();
    assert_eq!(plan.code.len() * 4, spirv.len());
    assert_eq!(plan.code[0], 0x0723_0203);
    assert_eq!(plan.code, native_words(&spirv));
    assert_eq!(try_plan_compute_pipeline(&desc).unwrap().code, plan.code);
    assert_eq!(plan.entry_name, "main");
    assert_eq!(
        plan.push_constant_range,
        Some(PushConstantRange { stage_flags: SHADER_STAGE_COMPUTE, offset: 0, size: 12 })
    );
    assert_eq!(plan.set_layouts.len(), 2);
    let s0 = plan.set_layouts.iter().find(|s| s.set_index == 0).unwrap();
    let s2 = plan.set_layouts.iter().find(|s| s.set_index == 2).unwrap();
    assert_eq!(s0.flags, 0);
    assert_eq!(s2.flags, 0x2);
    assert_eq!(s0.bindings.len(), 1);
    assert_eq!(s0.bindings[0].binding, 1);
    assert_eq!(s0.bindings[0].stage_flags, SHADER_STAGE_COMPUTE);
    assert_eq!(
        s0.bindings[0].kind,
        BindingKind::Sampler(SamplerDesc {
            texel_filter: TexelFilter::Linear,
            mipmap_mode: MipmapMode::Linear,
            address_modes: AddressMode::Repeat,
        })
    );
    assert_eq!(s2.bindings[0].kind, BindingKind::StorageBuffer);
}

#[test]
fn rejects_what_reflection_rejects() {
    let garbage = vec![1u8, 2, 3, 4, 5, 6, 7, 8];
    let desc = ComputePipelineDesc::builder().spirv(&garbage).entry_name("main").build().unwrap();
    assert!(matches!(try_plan_compute_pipeline(&desc), Err(PipelineError::InvalidSpirv { shader: 0 })));
}

#[test]
fn rejects_unknown_sampler_in_compute_module() {
    let spirv = module("point_sampler", false, 0);
    let desc = ComputePipelineDesc::builder().spirv(&spirv).entry_name("main").build().unwrap();
    match try_plan_compute_pipeline(&desc) {
        Err(PipelineError::Layout(LayoutError::InvalidSamplerName { set, binding, name })) => {
            assert_eq!((set, binding, name.as_str()), (0, 1, "point_sampler"));
        }
        _ => panic!("expected a sampler name error"),
    }
}

#[test]
fn rejects_entry_point_with_nul() {
    let spirv = module("sampler_nnr", false, 0);
    let desc = ComputePipelineDesc::builder().spirv(&spirv).entry_name("ma\0in").build().unwrap();
    assert!(matches!(try_plan_compute_pipeline(&desc), Err(PipelineError::EntryNameHasNul { shader: 0 })));
}

#[test]
fn plans_a_raster_pipeline_over_merged_stages() {
    let vs = module("sampler_llr", true, 1);
    let ps = module("sampler_llr", false, 0);
    let shaders = [
        RasterShaderDesc::new(RasterStage::Vertex, &vs, "vs_main").build().unwrap(),
        RasterShaderDesc::new(RasterStage::Pixel, &ps, "ps_main").build().unwrap(),
    ];
    let plan = plan_raster_pipeline(&shaders).unwrap();
    assert_eq!(plan.stages.len(), 2);
    assert_eq!(plan.stages[0].stage_flags, SHADER_STAGE_VERTEX);
    assert_eq!(plan.stages[1].stage_flags, SHADER_STAGE_FRAGMENT);
    assert_eq!(plan.stages[0].entry_name, "vs_main");
    assert_eq!(plan.stages[1].code.len() * 4, ps.len());
    assert_eq!(plan.stages[0].code, native_words(&vs));
    assert_eq!(plan.stages[1].code, native_words(&ps));
    assert_eq!(plan.set_layouts.len(), 2);
    let s0 = plan.set_layouts.iter().find(|s| s.set_index == 0).unwrap();
    let s1 = plan.set_layouts.iter().find(|s| s.set_index == 1).unwrap();
    assert_eq!(s0.bindings.len(), 1);
    assert_eq!(s0.bindings[0].binding, 1);
    assert!(matches!(s0.bindings[0].kind, BindingKind::Sampler(_)));
    assert_eq!(s1.bindings.len(), 1);
    assert_eq!(s1.bindings[0].kind, BindingKind::StorageBuffer);
    assert!(plan
        .set_layouts
        .iter()
        .all(|s| s.flags == 0 && s.bindings.iter().all(|b| b.stage_flags == SHADER_STAGE_ALL_GRAPHICS)));
}

#[test]
fn raster_stages_that_disagree_are_rejected() {
    let vs = module("sampler_llr", false, 0);
    let ps = module("sampler_nnr", false, 0);
    let shaders = [
        RasterShaderDesc::new(RasterStage::Vertex, &vs, "vs_main").build().unwrap(),
        RasterShaderDesc::new(RasterStage::Pixel, &ps, "ps_main").build().unwrap(),
    ];
    assert!(matches!(try_plan_raster_pipeline(&shaders), Err(PipelineError::ConflictingStageLayouts)));
}

#[test]
fn raster_reports_the_first_bad_module() {
    let vs = module("sampler_llr", false, 0);
    let bad = vec![0u8; 8];
    let shaders = [
        RasterShaderDesc::new(RasterStage::Vertex, &vs, "vs_main").build().unwrap(),
        RasterShaderDesc::new(RasterStage::Pixel, &bad, "ps_main").build().unwrap(),
    ];
    assert!(matches!(try_plan_raster_pipeline(&shaders), Err(PipelineError::InvalidSpirv { shader: 1 })));
}

#[test]
fn raster_with_no_shaders_has_no_layouts() {
    let plan = plan_raster_pipeline(&[]).unwrap();
    assert!(plan.set_layouts.is_empty());
    assert!(plan.stages.is_empty());
}

#[test]
fn compute_builder_keeps_the_last_value_of_each_setter() {
    let a = [0u8; 4];
    let b = [1u8; 8];
    let f1 = [(0usize, 1u32)];
    let f2 = [(1usize, 2u32)];
    let d = ComputePipelineDesc::builder()
        .spirv(&a)
        .push_constants_bytes(4)
        .entry_name("first")
        .descriptor_set_layout_flags(&f1)
        .spirv(&b)
        .descriptor_set_layout_flags(&f2)
        .entry_name("second")
        .push_constants_bytes(32)
        .build()
        .unwrap();
    assert_eq!(d.spirv, &b[..]);
    assert_eq!(d.entry_name, "second");
    assert_eq!(d.descriptor_set_layout_flags.unwrap(), &f2[..]);
    assert_eq!(d.push_constants_bytes, 32);
    assert_eq!(
        ComputePipelineDesc::builder().push_constants_bytes(8).entry_name("x").build().err(),
        Some(DescBuildError::MissingSpirv)
    );
}

#[test]
fn each_raster_stage_carries_its_own_module() {
    let vs = module("sampler_llr", false, 0);
    let mut ps = module("sampler_llr", false, 0);
    ps[12] = 17;
    assert_eq!(vs.len(), ps.len());
    let shaders = [
        RasterShaderDesc::new(RasterStage::Vertex, &vs, "vs_main").build().unwrap(),
        RasterShaderDesc::new(RasterStage::Pixel, &ps, "ps_main").build().unwrap(),
    ];
    let plan = try_plan_raster_pipeline(&shaders).unwrap();
    assert_eq!(plan.stages[0].code, native_words(&vs));
    assert_eq!(plan.stages[1].code, native_words(&ps));
    assert_ne!(plan.stages[0].code, plan.stages[1].code);
}

#[test]
fn raster_plan_ignores_per_shader_flags_and_push_constants() {
    let vs = module("sampler_llr", true, 1);
    let ps = module("sampler_llr", false, 0);
    let flags = [(1usize, 0x2u32)];
    let plain = [
        RasterShaderDesc::new(RasterStage::Vertex, &vs, "vs_main").build().unwrap(),
        RasterShaderDesc::new(RasterStage::Pixel, &ps, "ps_main").build().unwrap(),
    ];
    let decorated = [
        RasterShaderDesc::new(RasterStage::Vertex, &vs, "vs_main")
            .descriptor_set_layout_flags(&flags)
            .push_constants_bytes(64)
            .build()
            .unwrap(),
        RasterShaderDesc::new(RasterStage::Pixel, &ps, "ps_main").push_constants_bytes(16).build().unwrap(),
    ];
    let a = plan_raster_pipeline(&plain).unwrap();
    let b = plan_raster_pipeline(&decorated).unwrap();
    assert_eq!(a.stages.len(), b.stages.len());
    for (x, y) in a.stages.iter().zip(b.stages.iter()) {
        assert_eq!((x.stage_flags, x.entry_name, &x.code), (y.stage_flags, y.entry_name, &y.code));
    }
    let mut la: Vec<_> = a.set_layouts.iter().map(|s| (s.set_index, s.flags, s.bindings.len())).collect();
    let mut lb: Vec<_> = b.set_layouts.iter().map(|s| (s.set_index, s.flags, s.bindings.len())).collect();
    la.sort();
    lb.sort();
    assert_eq!(la, lb);
    assert!(lb.iter().all(|&(_, flags, _)| flags == 0));
}

#[test]
fn raster_reports_the_first_malformed_shader() {
    let vs = module("sampler_llr", false, 0);
    let mut odd = module("sampler_llr", false, 0);
    odd.push(0);
    let shaders = [
        RasterShaderDesc::new(RasterStage::Vertex, &vs, "vs_main").build().unwrap(),
        RasterShaderDesc::new(RasterStage::Pixel, &odd, "ps\0main").build().unwrap(),
    ];
    assert!(matches!(try_plan_raster_pipeline(&shaders), Err(PipelineError::SpirvNotWords { shader: 1 })));
    let shaders = [
        RasterShaderDesc::new(RasterStage::Vertex, &vs, "vs\0main").build().unwrap(),
        RasterShaderDesc::new(RasterStage::Pixel, &odd, "ps_main").build().unwrap(),
    ];
    assert!(matches!(try_plan_raster_pipeline(&shaders), Err(PipelineError::EntryNameHasNul { shader: 0 })));
}

#[test]
fn compute_checks_word_count_before_entry_name() {
    let mut odd = module("sampler_nnr", false, 0);
    odd.push(0);
    let desc = ComputePipelineDesc::builder().spirv(&odd).entry_name("ma\0in").build().unwrap();
    assert!(matches!(try_plan_compute_pipeline(&desc), Err(PipelineError::SpirvNotWords { shader: 0 })));
}
