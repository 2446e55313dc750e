use std::collections::HashMap;

use vk_backend::descriptor::{
    DescriptorInfo, DescriptorSetBindings, StageDescriptorSetLayout, DESCRIPTOR_TYPE_SAMPLER,
    DESCRIPTOR_TYPE_STORAGE_BUFFER, DESCRIPTOR_TYPE_UNIFORM_BUFFER,
};
use vk_backend::merge::{
    bindings_agree, map_keys, merge_shader_stage_layout_pair, merge_shader_stage_layouts,
    stage_layouts_agree, stage_layouts_all_agree,
};

fn info(ty: u32, name: &str, is_bindless: bool) -> DescriptorInfo {
    DescriptorInfo { ty, is_bindless, name: name.to_string() }
}

fn layout(sets: Vec<(u32, Vec<(u32, DescriptorInfo)>)>) -> StageDescriptorSetLayout {
    sets.into_iter()
        .map(|(s, b)| (s, b.into_iter().collect::<DescriptorSetBindings>()))
        .collect()
}

fn summary(l: &StageDescriptorSetLayout) -> Vec<(u32, u32, u32, String, bool)> {
    let mut v: Vec<_> = l
        .iter()
        .flat_map(|(s, b)| b.iter().map(move |(k, d)| (*s, *k, d.ty, d.name.clone(), d.is_bindless)))
        .collect();
    v.sort();
    v
}

#[test]
fn pair_merge_unions_sets_and_bindings() {
    let src = layout(vec![
        (0, vec![(0, info(DESCRIPTOR_TYPE_UNIFORM_BUFFER, "frame", true)), (1, info(DESCRIPTOR_TYPE_SAMPLER, "sampler_llr", false))]),
        (2, vec![(5, info(DESCRIPTOR_TYPE_STORAGE_BUFFER, "out", false))]),
    ]);
    let mut dst = layout(vec![(0, vec![(0, info(DESCRIPTOR_TYPE_UNIFORM_BUFFER, "frame", false))])]);
    merge_shader_stage_layout_pair(src, &mut dst);
    assert_eq!(
        summary(&dst),
        vec![
            (0, 0, DESCRIPTOR_TYPE_UNIFORM_BUFFER, "frame".to_string(), false),
            (0, 1, DESCRIPTOR_TYPE_SAMPLER, "sampler_llr".to_string(), false),
            (2, 5, DESCRIPTOR_TYPE_STORAGE_BUFFER, "out".to_string(), false),
        ]
    );
}

#[test]
fn merging_into_itself_changes_nothing() {
    let a = layout(vec![(1, vec![(0, info(DESCRIPTOR_TYPE_SAMPLER, "sampler_nnc", false))])]);
    let mut b = layout(vec![(1, vec![(0, info(DESCRIPTOR_TYPE_SAMPLER, "sampler_nnc", false))])]);
    let before = summary(&b);
    merge_shader_stage_layout_pair(a, &mut b);
    assert_eq!(summary(&b), before);
}

#[test]
fn merging_no_stages_gives_an_empty_layout() {
    assert!(merge_shader_stage_layouts(Vec::new()).is_empty());
}

#[test]
fn merging_stages_keeps_every_binding() {
    let vs = layout(vec![(0, vec![(0, info(DESCRIPTOR_TYPE_UNIFORM_BUFFER, "frame", false))])]);
    let ps = layout(vec![
        (0, vec![(0, info(DESCRIPTOR_TYPE_UNIFORM_BUFFER, "frame", false)), (1, info(DESCRIPTOR_TYPE_SAMPLER, "sampler_llr", false))]),
        (1, vec![(0, info(DESCRIPTOR_TYPE_STORAGE_BUFFER, "lights", false))]),
    ]);
    let stages = vec![vs, ps];
    assert!(stage_layouts_all_agree(&stages));
    let merged = merge_shader_stage_layouts(stages);
    assert_eq!(summary(&merged).len(), 3);
    assert_eq!(merged.len(), 2);
}

#[test]
fn conflicting_stages_are_detected() {
    let a = layout(vec![(0, vec![(0, info(DESCRIPTOR_TYPE_UNIFORM_BUFFER, "frame", false))])]);
    let b = layout(vec![(0, vec![(0, info(DESCRIPTOR_TYPE_STORAGE_BUFFER, "frame", false))])]);
    let c = layout(vec![(0, vec![(0, info(DESCRIPTOR_TYPE_UNIFORM_BUFFER, "view", false))])]);
    assert!(!stage_layouts_agree(&a, &b));
    assert!(!stage_layouts_agree(&a, &c));
    assert!(!bindings_agree(&a[&0], &c[&0]));
    assert!(stage_layouts_agree(&a, &a));
    let d = layout(vec![(0, vec![(0, info(DESCRIPTOR_TYPE_UNIFORM_BUFFER, "frame", true))])]);
    assert!(stage_layouts_agree(&a, &d));
    assert!(!stage_layouts_all_agree(&vec![a, d, c]));
}

#[test]
fn keys_are_listed_once_each() {
    let m: HashMap<u32, u8> = [(3, 0), (9, 1), (1, 2)].into_iter().collect();
    let mut k = map_keys(&m);
    k.sort();
    assert_eq!(k, vec![1, 3, 9]);
}
