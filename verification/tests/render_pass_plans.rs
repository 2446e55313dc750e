use vk_backend::render_pass::{
    plan_render_pass, AttachmentDescription, AttachmentLoadOp, AttachmentReference,
    AttachmentStoreOp, RenderPassAttachmentDesc, RenderPassDesc,
    IMAGE_LAYOUT_COLOR_ATTACHMENT_OPTIMAL, IMAGE_LAYOUT_DEPTH_ATTACHMENT_STENCIL_READ_ONLY_OPTIMAL,
    IMAGE_LAYOUT_PRESENT_SRC_KHR, IMAGE_LAYOUT_UNDEFINED, SAMPLE_COUNT_1,
};

#[test]
fn new_attachment_keeps_contents() {
    let a = RenderPassAttachmentDesc::new(37);
    assert_eq!(a.format, 37);
    assert_eq!(a.load_op, AttachmentLoadOp::Load);
    assert_eq!(a.store_op, AttachmentStoreOp::Store);
    assert_eq!(a.samples, SAMPLE_COUNT_1);
}

#[test]
fn setters_change_one_field_and_last_load_op_wins() {
    let a = RenderPassAttachmentDesc::new(44);
    assert_eq!(a.garbage_input().load_op, AttachmentLoadOp::DontCare);
    assert_eq!(a.clear_input().load_op, AttachmentLoadOp::Clear);
    assert_eq!(a.discard_output().store_op, AttachmentStoreOp::DontCare);
    assert_eq!(a.discard_output().load_op, AttachmentLoadOp::Load);
    assert_eq!(a.garbage_input().clear_input(), a.clear_input());
    assert_eq!(a.clear_input().discard_output(), a.discard_output().clear_input());
}

#[test]
fn plans_colors_then_depth() {
    let colors = [RenderPassAttachmentDesc::new(37).clear_input(), RenderPassAttachmentDesc::new(44)];
    let depth = RenderPassAttachmentDesc::new(126).discard_output();
    let plan = plan_render_pass(&RenderPassDesc { color_attachments: &colors, depth_attachment: Some(depth) });
    assert_eq!(plan.attachments.len(), 3);
    assert_eq!(plan.attachments[0].format, 37);
    assert_eq!(plan.attachments[0].load_op, AttachmentLoadOp::Clear);
    assert_eq!(plan.attachments[2].format, 126);
    assert_eq!(plan.attachments[2].store_op, AttachmentStoreOp::DontCare);
    assert!(plan.attachments.iter().all(|a| a.initial_layout == IMAGE_LAYOUT_COLOR_ATTACHMENT_OPTIMAL
        && a.final_layout == IMAGE_LAYOUT_COLOR_ATTACHMENT_OPTIMAL));
    assert_eq!(
        plan.color_attachment_refs,
        vec![
            AttachmentReference { attachment: 0, layout: IMAGE_LAYOUT_COLOR_ATTACHMENT_OPTIMAL },
            AttachmentReference { attachment: 1, layout: IMAGE_LAYOUT_COLOR_ATTACHMENT_OPTIMAL },
        ]
    );
    assert_eq!(
        plan.depth_attachment_ref,
        Some(AttachmentReference { attachment: 2, layout: IMAGE_LAYOUT_DEPTH_ATTACHMENT_STENCIL_READ_ONLY_OPTIMAL })
    );
}

#[test]
fn no_depth_no_depth_reference() {
    let colors = [RenderPassAttachmentDesc::new(37)];
    let plan = plan_render_pass(&RenderPassDesc { color_attachments: &colors, depth_attachment: None });
    assert_eq!(plan.attachments.len(), 1);
    assert_eq!(plan.color_attachment_refs.len(), 1);
    assert_eq!(plan.depth_attachment_ref, None);
    let plan = plan_render_pass(&RenderPassDesc { color_attachments: &[], depth_attachment: None });
    assert!(plan.attachments.is_empty() && plan.color_attachment_refs.is_empty());
}

#[test]
fn describes_a_cleared_swapchain_attachment() {
    let a = RenderPassAttachmentDesc::new(37).clear_input();
    assert_eq!(
        a.to_description(IMAGE_LAYOUT_UNDEFINED, IMAGE_LAYOUT_PRESENT_SRC_KHR),
        AttachmentDescription {
            flags: 0,
            format: 37,
            samples: SAMPLE_COUNT_1,
            load_op: AttachmentLoadOp::Clear,
            store_op: AttachmentStoreOp::Store,
            stencil_load_op: AttachmentLoadOp::Load,
            stencil_store_op: AttachmentStoreOp::Store,
            initial_layout: 0,
            final_layout: 1_000_001_002,
        }
    );
}
