use std::collections::HashMap;

use vk_backend::descriptor::{
    find_unsupported_binding, find_unsupported_binding_in_set, plan_binding,
    plan_descriptor_set_layout, plan_descriptor_set_layouts, set_layout_flags,
    BindingKind, BindingPlan, DescriptorInfo, DescriptorSetBindings, LayoutError,
    StageDescriptorSetLayout, DESCRIPTOR_TYPE_SAMPLED_IMAGE, DESCRIPTOR_TYPE_SAMPLER,
    DESCRIPTOR_TYPE_STORAGE_BUFFER, DESCRIPTOR_TYPE_STORAGE_IMAGE, DESCRIPTOR_TYPE_UNIFORM_BUFFER,
};
use vk_backend::sampler::{AddressMode, MipmapMode, SamplerDesc, TexelFilter};

fn info(ty: u32, name: &str) -> DescriptorInfo {
    DescriptorInfo { ty, is_bindless: false, name: name.to_string() }
}

#[test]
fn maps_each_supported_type() {
    let stage = 0x20;
    let cases = [
        (DESCRIPTOR_TYPE_UNIFORM_BUFFER, BindingKind::UniformBufferDynamic),
        (DESCRIPTOR_TYPE_STORAGE_IMAGE, BindingKind::StorageImage),
        (DESCRIPTOR_TYPE_STORAGE_BUFFER, BindingKind::StorageBuffer),
        (DESCRIPTOR_TYPE_SAMPLED_IMAGE, BindingKind::SampledImage),
    ];
    for (ty, kind) in cases {
        assert_eq!(
            plan_binding(3, &info(ty, "x"), stage),
            Some(BindingPlan { binding: 3, descriptor_count: 1, kind, stage_flags: stage })
        );
    }
}

#[test]
fn sampler_binding_carries_its_sampler() {
    let p = plan_binding(0, &info(DESCRIPTOR_TYPE_SAMPLER, "sampler_nlc"), 0x1f).unwrap();
    assert_eq!(
        p.kind,
        BindingKind::Sampler(SamplerDesc {
            texel_filter: TexelFilter::Nearest,
            mipmap_mode: MipmapMode::Linear,
            address_modes: AddressMode::ClampToEdge,
        })
    );
    assert_eq!(p.descriptor_count, 1);
    assert_eq!(p.stage_flags, 0x1f);
}

#[test]
fn unsupported_bindings_have_no_plan() {
    assert_eq!(plan_binding(0, &info(DESCRIPTOR_TYPE_SAMPLER, "linear_sampler"), 1), None);
    assert_eq!(plan_binding(0, &info(1, "combined"), 1), None);
    assert_eq!(plan_binding(0, &info(4, "texel"), 1), None);
    assert_eq!(plan_binding(0, &info(10, "input"), 1), None);
    assert_eq!(plan_binding(0, &info(1_000_165_000, "tlas"), 1), None);
}

#[test]
fn set_flags_come_from_first_matching_entry() {
    let flags = [(1usize, 0x2u32), (0, 0x1), (1, 0x4)];
    assert_eq!(set_layout_flags(1, &flags), 0x2);
    assert_eq!(set_layout_flags(0, &flags), 0x1);
    assert_eq!(set_layout_flags(5, &flags), 0);
    assert_eq!(set_layout_flags(0, &[]), 0);
}

fn set(entries: Vec<(u32, DescriptorInfo)>) -> DescriptorSetBindings {
    entries.into_iter().collect()
}

#[test]
fn plans_one_set() {
    let b = set(vec![
        (0, info(DESCRIPTOR_TYPE_STORAGE_BUFFER, "data")),
        (2, info(DESCRIPTOR_TYPE_SAMPLER, "sampler_llr")),
    ]);
    assert!(find_unsupported_binding_in_set(4, &b).is_none());
    let p = plan_descriptor_set_layout(4, &b, 0x20, &[(4, 0x2)]);
    assert_eq!(p.set_index, 4);
    assert_eq!(p.flags, 0x2);
    let mut bindings = p.bindings.clone();
    bindings.sort_by_key(|b| b.binding);
    assert_eq!(bindings.len(), 2);
    assert_eq!(bindings[0].kind, BindingKind::StorageBuffer);
    assert_eq!(bindings[1].binding, 2);
    assert!(matches!(bindings[1].kind, BindingKind::Sampler(_)));
}

#[test]
fn empty_set_plans_no_bindings() {
    let p = plan_descriptor_set_layout(0, &HashMap::new(), 0x20, &[]);
    assert!(p.bindings.is_empty());
    assert_eq!(p.flags, 0);
}

#[test]
fn reports_unsupported_type() {
    let b = set(vec![(7, info(5, "texels"))]);
    match find_unsupported_binding_in_set(1, &b) {
        Some(LayoutError::UnsupportedDescriptorType { set, binding, ty }) => {
            assert_eq!((set, binding, ty), (1, 7, 5));
        }
        other => panic!("{:?}", other),
    }
}

#[test]
fn reports_bad_sampler_name() {
    let b = set(vec![(0, info(DESCRIPTOR_TYPE_SAMPLER, "sampler_zz"))]);
    match find_unsupported_binding_in_set(2, &b) {
        Some(LayoutError::InvalidSamplerName { set, binding, name }) => {
            assert_eq!((set, binding, name.as_str()), (2, 0, "sampler_zz"));
        }
        other => panic!("{:?}", other),
    }
}

#[test]
fn plans_every_set_of_a_stage() {
    let mut layout: StageDescriptorSetLayout = HashMap::new();
    layout.insert(0, set(vec![(0, info(DESCRIPTOR_TYPE_UNIFORM_BUFFER, "frame"))]));
    layout.insert(3, set(vec![
        (0, info(DESCRIPTOR_TYPE_SAMPLED_IMAGE, "tex")),
        (1, info(DESCRIPTOR_TYPE_STORAGE_IMAGE, "out")),
    ]));
    assert!(find_unsupported_binding(&layout).is_none());
    let plans = plan_descriptor_set_layouts(&layout, 0x1f, &[(3, 0x1)]);
    assert_eq!(plans.len(), 2);
    let s0 = plans.iter().find(|p| p.set_index == 0).unwrap();
    let s3 = plans.iter().find(|p| p.set_index == 3).unwrap();
    assert_eq!(s0.flags, 0);
    assert_eq!(s3.flags, 0x1);
    assert_eq!(s0.bindings.len(), 1);
    assert_eq!(s0.bindings[0].kind, BindingKind::UniformBufferDynamic);
    assert_eq!(s3.bindings.len(), 2);
    assert!(s3.bindings.iter().all(|b| b.stage_flags == 0x1f && b.descriptor_count == 1));
}

#[test]
fn a_bad_binding_fails_the_whole_stage() {
    let mut layout: StageDescriptorSetLayout = HashMap::new();
    layout.insert(0, set(vec![(0, info(DESCRIPTOR_TYPE_UNIFORM_BUFFER, "frame"))]));
    layout.insert(1, set(vec![(0, info(9, "dyn"))]));
    assert!(matches!(
        find_unsupported_binding(&layout),
        Some(LayoutError::UnsupportedDescriptorType { set: 1, binding: 0, ty: 9 })
    ));
}

#[test]
fn flag_pairs_for_absent_or_already_named_sets_change_nothing() {
    let mut layout: StageDescriptorSetLayout = HashMap::new();
    layout.insert(0, set(vec![(0, info(DESCRIPTOR_TYPE_UNIFORM_BUFFER, "frame"))]));
    layout.insert(2, set(vec![(1, info(DESCRIPTOR_TYPE_STORAGE_BUFFER, "data"))]));
    let flags = [(2usize, 0x1u32)];
    let extended = [(2usize, 0x1u32), (7, 0x2), (2, 0x4)];
    let a = plan_descriptor_set_layouts(&layout, 0x20, &flags);
    let b = plan_descriptor_set_layouts(&layout, 0x20, &extended);
    assert_eq!(a.len(), b.len());
    for (x, y) in a.iter().zip(b.iter()) {
        assert_eq!((x.set_index, x.flags), (y.set_index, y.flags));
        assert_eq!(x.bindings, y.bindings);
    }
    assert_eq!(b.iter().find(|p| p.set_index == 2).unwrap().flags, 0x1);
}
