use vk_backend::module_scan::is_reflectable;
use vk_backend::pipeline::{try_plan_compute_pipeline, ComputePipelineDesc, PipelineError};

fn op(opcode: u32, operands: &[u32]) -> Vec<u32> {
    let mut v = vec![((operands.len() as u32 + 1) << 16) | opcode];
    v.extend_from_slice(operands);
    v
}

/// A module of the given SPIR-V version (major, minor) holding `body` after
/// the capability and memory model.
fn module(version: (u32, u32), body: &[Vec<u32>]) -> Vec<u8> {
    let mut w = vec![0x0723_0203, (version.0 << 16) | (version.1 << 8), 0, 64, 0];
    w.extend(op(17, &[1]));
    w.extend(op(14, &[0, 1]));
    for inst in body {
        w.extend(inst);
    }
    w.iter().flat_map(|x| x.to_le_bytes()).collect()
}

fn set_and_binding(var: u32, set: u32, binding: u32) -> Vec<Vec<u32>> {
    vec![op(71, &[var, 34, set]), op(71, &[var, 33, binding])]
}

/// A storage buffer `%7` of struct `%4` (one uint member) at (0, 0); the struct
/// carries `decorations` and the variable lives in `storage_class`.
fn buffer_module(version: (u32, u32), decorations: &[u32], storage_class: u32) -> Vec<u8> {
    let mut body = set_and_binding(7, 0, 0);
    for d in decorations {
        body.push(op(71, &[4, *d]));
    }
    body.push(op(21, &[3, 32, 0]));
    body.push(op(30, &[4, 3]));
    body.push(op(32, &[5, storage_class, 4]));
    body.push(op(59, &[5, 7, storage_class]));
    module(version, &body)
}

fn plan(spirv: &[u8]) -> Result<(), PipelineError> {
    let desc = ComputePipelineDesc::builder().spirv(spirv).entry_name("main").build().unwrap();
    try_plan_compute_pipeline(&desc).map(|_| ())
}

#[test]
fn plain_modules_and_non_modules_are_reflectable() {
    assert!(is_reflectable(&[]));
    assert!(is_reflectable(&[1, 2, 3, 4, 5, 6, 7, 8]));
    assert!(is_reflectable(&module((1, 0), &[])));
    let m = buffer_module((1, 0), &[3], 2);
    assert!(is_reflectable(&m));
    assert!(plan(&m).is_ok());
}

#[test]
fn sampled_image_descriptor_is_not_reflectable() {
    let body = vec![
        op(71, &[9, 34, 0]),
        op(71, &[9, 33, 0]),
        op(22, &[2, 32]),
        op(25, &[3, 2, 1, 0, 0, 0, 1, 0]),
        op(27, &[4, 3]),
        op(32, &[5, 0, 4]),
        op(59, &[5, 9, 0]),
    ];
    let m = module((1, 0), &body);
    assert!(!is_reflectable(&m));
    assert!(matches!(plan(&m), Err(PipelineError::UnreflectableSpirv { shader: 0 })));
}

#[test]
fn sampled_image_type_alone_is_reflectable() {
    let mut body = set_and_binding(7, 0, 0);
    body.push(op(71, &[4, 3]));
    body.push(op(21, &[3, 32, 0]));
    body.push(op(30, &[4, 3]));
    body.push(op(32, &[5, 2, 4]));
    body.push(op(59, &[5, 7, 2]));
    body.push(op(22, &[10, 32]));
    body.push(op(25, &[11, 10, 1, 0, 0, 0, 1, 0]));
    body.push(op(27, &[12, 11]));
    let m = module((1, 0), &body);
    assert!(is_reflectable(&m));
    assert!(plan(&m).is_ok());
}

#[test]
fn pointer_in_another_storage_class_is_not_reflectable() {
    let mut body = set_and_binding(7, 0, 0);
    body.push(op(71, &[4, 3]));
    body.push(op(21, &[3, 32, 0]));
    body.push(op(30, &[4, 3]));
    body.push(op(32, &[5, 12, 4]));
    body.push(op(59, &[5, 7, 2]));
    let m = module((1, 0), &body);
    assert!(!is_reflectable(&m));
    assert!(matches!(plan(&m), Err(PipelineError::UnreflectableSpirv { shader: 0 })));
}

#[test]
fn newer_modules_need_block_and_no_buffer_block() {
    let block = buffer_module((1, 4), &[2], 12);
    assert!(is_reflectable(&block));
    assert!(plan(&block).is_ok());
    assert!(!is_reflectable(&buffer_module((1, 4), &[3], 12)));
    assert!(!is_reflectable(&buffer_module((1, 4), &[2, 3], 12)));
    assert!(!is_reflectable(&buffer_module((1, 5), &[], 12)));
    assert!(is_reflectable(&buffer_module((1, 3), &[3], 2)));
}

#[test]
fn twice_decorated_variable_is_not_reflectable() {
    let mut body = set_and_binding(7, 0, 0);
    body.push(op(71, &[7, 34, 1]));
    body.push(op(71, &[4, 3]));
    body.push(op(21, &[3, 32, 0]));
    body.push(op(30, &[4, 3]));
    body.push(op(32, &[5, 2, 4]));
    body.push(op(59, &[5, 7, 2]));
    assert!(!is_reflectable(&module((1, 0), &body)));
    let mut body = set_and_binding(7, 0, 0);
    body.push(op(71, &[7, 33, 0]));
    body.push(op(71, &[4, 3]));
    body.push(op(21, &[3, 32, 0]));
    body.push(op(30, &[4, 3]));
    body.push(op(32, &[5, 2, 4]));
    body.push(op(59, &[5, 7, 2]));
    assert!(!is_reflectable(&module((1, 0), &body)));
}

#[test]
fn two_variables_in_one_slot_are_not_reflectable() {
    let mut body = set_and_binding(7, 1, 2);
    body.extend(set_and_binding(8, 1, 2));
    body.push(op(71, &[4, 3]));
    body.push(op(21, &[3, 32, 0]));
    body.push(op(30, &[4, 3]));
    body.push(op(32, &[5, 2, 4]));
    body.push(op(59, &[5, 7, 2]));
    body.push(op(59, &[5, 8, 2]));
    let m = module((1, 0), &body);
    assert!(!is_reflectable(&m));
    assert!(matches!(plan(&m), Err(PipelineError::UnreflectableSpirv { shader: 0 })));
    let mut body = set_and_binding(7, 1, 2);
    body.extend(set_and_binding(8, 1, 3));
    body.push(op(71, &[4, 3]));
    body.push(op(21, &[3, 32, 0]));
    body.push(op(30, &[4, 3]));
    body.push(op(32, &[5, 2, 4]));
    body.push(op(59, &[5, 7, 2]));
    body.push(op(59, &[5, 8, 2]));
    assert!(is_reflectable(&module((1, 0), &body)));
}

#[test]
fn decoration_group_only_matters_with_descriptor_variables() {
    assert!(is_reflectable(&module((1, 0), &[op(73, &[20])])));
    let mut body = vec![op(73, &[20])];
    body.extend(set_and_binding(7, 0, 0));
    body.push(op(71, &[4, 3]));
    body.push(op(21, &[3, 32, 0]));
    body.push(op(30, &[4, 3]));
    body.push(op(32, &[5, 2, 4]));
    body.push(op(59, &[5, 7, 2]));
    assert!(!is_reflectable(&module((1, 0), &body)));
}

#[test]
fn spec_constant_op_over_a_constant_is_not_reflectable() {
    let body = vec![op(21, &[2, 32, 0]), op(52, &[2, 3, 43, 5])];
    assert!(!is_reflectable(&module((1, 0), &body)));
    let body = vec![op(21, &[2, 32, 0]), op(52, &[2, 3, 0x1_0000 + 50, 5])];
    assert!(!is_reflectable(&module((1, 0), &body)));
    let body = vec![op(21, &[2, 32, 0]), op(43, &[2, 4, 1]), op(52, &[2, 3, 128, 4, 4])];
    assert!(is_reflectable(&module((1, 0), &body)));
}

#[test]
fn pointer_cycle_is_not_reflectable() {
    let mut body = set_and_binding(7, 0, 0);
    body.push(op(32, &[5, 2, 5]));
    body.push(op(59, &[5, 7, 2]));
    let m = module((1, 0), &body);
    assert!(!is_reflectable(&m));
    assert!(matches!(plan(&m), Err(PipelineError::UnreflectableSpirv { shader: 0 })));
}

#[test]
fn variables_inside_functions_are_not_descriptor_variables() {
    let mut body = vec![
        op(19, &[30]),
        op(33, &[31, 30]),
        op(22, &[2, 32]),
        op(25, &[3, 2, 1, 0, 0, 0, 1, 0]),
        op(27, &[4, 3]),
        op(32, &[5, 0, 4]),
        op(54, &[30, 32, 0, 31]),
        op(248, &[33]),
    ];
    body.push(op(59, &[5, 9, 0]));
    body.push(op(253, &[]));
    body.push(op(56, &[]));
    assert!(is_reflectable(&module((1, 0), &body)));
}
