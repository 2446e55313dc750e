use vstd::prelude::*;

verus! {

/// Vulkan `VkSampleCountFlags` bit for one sample per pixel.
pub const SAMPLE_COUNT_1: u32 = 0x1;

/// What happens to an attachment's contents when a render pass begins.
#[derive(Copy, Clone, PartialEq, Eq, Structural, Debug)]
pub enum AttachmentLoadOp {
    Load,
    Clear,
    DontCare,
}

/// What happens to an attachment's contents when a render pass ends.
#[derive(Copy, Clone, PartialEq, Eq, Structural, Debug)]
pub enum AttachmentStoreOp {
    Store,
    DontCare,
}

/// A Vulkan `VkImageLayout` code.
pub type ImageLayout = i32;

pub const IMAGE_LAYOUT_UNDEFINED: i32 = 0;

pub const IMAGE_LAYOUT_COLOR_ATTACHMENT_OPTIMAL: i32 = 2;

pub const IMAGE_LAYOUT_PRESENT_SRC_KHR: i32 = 1_000_001_002;

pub const IMAGE_LAYOUT_DEPTH_ATTACHMENT_STENCIL_READ_ONLY_OPTIMAL: i32 = 1_000_117_001;

/// One attachment of a render pass.
#[derive(Copy, Clone, PartialEq, Eq, Structural, Debug)]
pub struct RenderPassAttachmentDesc {
    /// Vulkan `VkFormat` code.
    pub format: i32,
    pub load_op: AttachmentLoadOp,
    pub store_op: AttachmentStoreOp,
    /// Vulkan `VkSampleCountFlags` bits.
    pub samples: u32,
}

/// An attachment description of a render pass to be created.
#[derive(Copy, Clone, PartialEq, Eq, Structural, Debug)]
pub struct AttachmentDescription {
    /// Vulkan `VkAttachmentDescriptionFlags` bits.
    pub flags: u32,
    pub format: i32,
    pub samples: u32,
    pub load_op: AttachmentLoadOp,
    pub store_op: AttachmentStoreOp,
    pub stencil_load_op: AttachmentLoadOp,
    pub stencil_store_op: AttachmentStoreOp,
    pub initial_layout: ImageLayout,
    pub final_layout: ImageLayout,
}

/// A subpass's reference to an attachment of its render pass.
#[derive(Copy, Clone, PartialEq, Eq, Structural, Debug)]
pub struct AttachmentReference {
    pub attachment: u32,
    pub layout: ImageLayout,
}

pub open spec fn with_load_op(a: RenderPassAttachmentDesc, op: AttachmentLoadOp) -> RenderPassAttachmentDesc {
    RenderPassAttachmentDesc { load_op: op, ..a }
}

pub open spec fn with_store_op(a: RenderPassAttachmentDesc, op: AttachmentStoreOp) -> RenderPassAttachmentDesc {
    RenderPassAttachmentDesc { store_op: op, ..a }
}

pub open spec fn attachment_description(
    a: RenderPassAttachmentDesc,
    initial_layout: ImageLayout,
    final_layout: ImageLayout,
) -> AttachmentDescription {
    AttachmentDescription {
        flags: 0,
        format: a.format,
        samples: a.samples,
        load_op: a.load_op,
        store_op: a.store_op,
        stencil_load_op: AttachmentLoadOp::Load,
        stencil_store_op: AttachmentStoreOp::Store,
        initial_layout,
        final_layout,
    }
}

impl RenderPassAttachmentDesc {
    /// An attachment of format `format` that keeps its contents on both ends and
    /// takes one sample per pixel.
    pub fn new(format: i32) -> (r: Self)
        ensures
            r == (RenderPassAttachmentDesc {
                format,
                load_op: AttachmentLoadOp::Load,
                store_op: AttachmentStoreOp::Store,
                samples: SAMPLE_COUNT_1,
            }),
    {
        RenderPassAttachmentDesc {
            format,
            load_op: AttachmentLoadOp::Load,
            store_op: AttachmentStoreOp::Store,
            samples: SAMPLE_COUNT_1,
        }
    }

    /// The same attachment, with whatever contents it held left undefined.
    pub fn garbage_input(self) -> (r: Self)
        ensures
            r == with_load_op(self, AttachmentLoadOp::DontCare),
    {
        RenderPassAttachmentDesc { load_op: AttachmentLoadOp::DontCare, ..self }
    }

    /// The same attachment, cleared when the render pass begins.
    pub fn clear_input(self) -> (r: Self)
        ensures
            r == with_load_op(self, AttachmentLoadOp::Clear),
    {
        RenderPassAttachmentDesc { load_op: AttachmentLoadOp::Clear, ..self }
    }

    /// The same attachment, whose contents need not be kept after the render pass.
    pub fn discard_output(self) -> (r: Self)
        ensures
            r == with_store_op(self, AttachmentStoreOp::DontCare),
    {
        RenderPassAttachmentDesc { store_op: AttachmentStoreOp::DontCare, ..self }
    }

    /// The attachment's description, with the given layouts on entry and exit, no
    /// flags, and the stencil kept (loaded and stored).
    pub fn to_description(&self, initial_layout: ImageLayout, final_layout: ImageLayout) -> (r:
        AttachmentDescription)
        ensures
            r == attachment_description(*self, initial_layout, final_layout),
            r.format == self.format,
            r.samples == self.samples,
            r.load_op == self.load_op,
            r.store_op == self.store_op,
            r.initial_layout == initial_layout,
            r.final_layout == final_layout,
    {
        AttachmentDescription {
            flags: 0,
            format: self.format,
            samples: self.samples,
            load_op: self.load_op,
            store_op: self.store_op,
            stencil_load_op: AttachmentLoadOp::Load,
            stencil_store_op: AttachmentStoreOp::Store,
            initial_layout,
            final_layout,
        }
    }
}

/// Of two calls that set how an attachment is loaded, the later one decides.
pub proof fn lemma_last_load_op_wins(
    a: RenderPassAttachmentDesc,
    first: AttachmentLoadOp,
    second: AttachmentLoadOp,
)
    ensures
        with_load_op(with_load_op(a, first), second) == with_load_op(a, second),
{
}

/// Setting how an attachment is loaded and how it is stored do not interfere.
pub proof fn lemma_load_and_store_ops_commute(
    a: RenderPassAttachmentDesc,
    load: AttachmentLoadOp,
    store: AttachmentStoreOp,
)
    ensures
        with_store_op(with_load_op(a, load), store) == with_load_op(with_store_op(a, store), load),
        with_store_op(with_load_op(a, load), store).format == a.format,
        with_store_op(with_load_op(a, load), store).samples == a.samples,
{
}

/// The attachments of a render pass with a single subpass.
pub struct RenderPassDesc<'a> {
    pub color_attachments: &'a [RenderPassAttachmentDesc],
    pub depth_attachment: Option<RenderPassAttachmentDesc>,
}

/// Everything a render pass is created from: its attachments, and the color and
/// depth references of its one subpass.
pub struct RenderPassPlan {
    pub attachments: Vec<AttachmentDescription>,
    pub color_attachment_refs: Vec<AttachmentReference>,
    pub depth_attachment_ref: Option<AttachmentReference>,
}

/// The color attachments, then the depth attachment if any, all described with
/// the color attachment layout on entry and exit.
pub open spec fn render_pass_attachments(
    colors: Seq<RenderPassAttachmentDesc>,
    depth: Option<RenderPassAttachmentDesc>,
) -> Seq<AttachmentDescription> {
    let described = colors.map_values(
        |a: RenderPassAttachmentDesc|
            attachment_description(
                a,
                IMAGE_LAYOUT_COLOR_ATTACHMENT_OPTIMAL,
                IMAGE_LAYOUT_COLOR_ATTACHMENT_OPTIMAL,
            ),
    );
    match depth {
        Some(d) => described.push(
            attachment_description(
                d,
                IMAGE_LAYOUT_COLOR_ATTACHMENT_OPTIMAL,
                IMAGE_LAYOUT_COLOR_ATTACHMENT_OPTIMAL,
            ),
        ),
        None => described,
    }
}

/// References to the first `n` attachments, in the color attachment layout.
pub open spec fn color_attachment_refs(n: u32) -> Seq<AttachmentReference> {
    Seq::new(
        n as nat,
        |i: int| AttachmentReference { attachment: i as u32, layout: IMAGE_LAYOUT_COLOR_ATTACHMENT_OPTIMAL },
    )
}

/// The subpass's depth reference: the attachment right after the colors, read-only.
pub open spec fn depth_attachment_ref(
    n_colors: u32,
    depth: Option<RenderPassAttachmentDesc>,
) -> Option<AttachmentReference> {
    match depth {
        Some(_) => Some(
            AttachmentReference {
                attachment: n_colors,
                layout: IMAGE_LAYOUT_DEPTH_ATTACHMENT_STENCIL_READ_ONLY_OPTIMAL,
            },
        ),
        None => None,
    }
}

/// Plans a render pass with one graphics subpass that writes every color
/// attachment and, if there is one, tests against the depth attachment. The
/// attachment count is taken modulo 2^32, as Vulkan counts in 32 bits.
pub fn plan_render_pass(desc: &RenderPassDesc) -> (r: RenderPassPlan)
    ensures
        r.attachments@ == render_pass_attachments(desc.color_attachments@, desc.depth_attachment),
        r.color_attachment_refs@ == color_attachment_refs(desc.color_attachments@.len() as u32),
        r.depth_attachment_ref == depth_attachment_ref(
            desc.color_attachments@.len() as u32,
            desc.depth_attachment,
        ),
{
    let colors = desc.color_attachments;
    let mut attachments: Vec<AttachmentDescription> = Vec::new();
    let mut i: usize = 0;
    while i < colors.len()
        invariant
            0 <= i <= colors@.len(),
            attachments@ == render_pass_attachments(colors@.take(i as int), None),
        decreases colors@.len() - i,
    {
        attachments.push(
            colors[i].to_description(
                IMAGE_LAYOUT_COLOR_ATTACHMENT_OPTIMAL,
                IMAGE_LAYOUT_COLOR_ATTACHMENT_OPTIMAL,
            ),
        );
        assert(colors@.take(i + 1) =~= colors@.take(i as int).push(colors@[i as int]));
        assert(attachments@ =~= render_pass_attachments(colors@.take(i + 1), None));
        i = i + 1;
    }
    assert(colors@.take(i as int) =~= colors@);
    match desc.depth_attachment {
        Some(d) => {
            attachments.push(
                d.to_description(
                    IMAGE_LAYOUT_COLOR_ATTACHMENT_OPTIMAL,
                    IMAGE_LAYOUT_COLOR_ATTACHMENT_OPTIMAL,
                ),
            );
        },
        None => {},
    }
    let n = colors.len() as u32;
    let mut refs: Vec<AttachmentReference> = Vec::new();
    let mut k: u32 = 0;
    while k < n
        invariant
            0 <= k <= n,
            refs@ == color_attachment_refs(k),
        decreases n - k,
    {
        refs.push(AttachmentReference { attachment: k, layout: IMAGE_LAYOUT_COLOR_ATTACHMENT_OPTIMAL });
        assert(refs@ =~= color_attachment_refs((k + 1) as u32));
        k = k + 1;
    }
    let depth_ref = match desc.depth_attachment {
        Some(_) => Some(
            AttachmentReference {
                attachment: n,
                layout: IMAGE_LAYOUT_DEPTH_ATTACHMENT_STENCIL_READ_ONLY_OPTIMAL,
            },
        ),
        None => None,
    };
    RenderPassPlan { attachments, color_attachment_refs: refs, depth_attachment_ref: depth_ref }
}

/// Every reference of the subpass names an attachment of the render pass: color
/// reference `i` the `i`-th color attachment, the depth reference the depth
/// attachment. This needs the color count to fit in 32 bits: past that the depth
/// reference's index wraps around onto a color attachment.
pub proof fn lemma_render_pass_refs_in_bounds(
    colors: Seq<RenderPassAttachmentDesc>,
    depth: Option<RenderPassAttachmentDesc>,
)
    requires
        colors.len() <= u32::MAX,
    ensures
        ({
            let atts = render_pass_attachments(colors, depth);
            let refs = color_attachment_refs(colors.len() as u32);
            &&& refs.len() == colors.len()
            &&& forall|i: int|
                0 <= i < refs.len() ==> (#[trigger] refs[i]).attachment < atts.len()
                    && atts[refs[i].attachment as int] == attachment_description(
                    colors[i],
                    IMAGE_LAYOUT_COLOR_ATTACHMENT_OPTIMAL,
                    IMAGE_LAYOUT_COLOR_ATTACHMENT_OPTIMAL,
                )
            &&& match depth_attachment_ref(colors.len() as u32, depth) {
                Some(r) => depth is Some && r.attachment < atts.len()
                    && atts[r.attachment as int] == attachment_description(
                    depth->0,
                    IMAGE_LAYOUT_COLOR_ATTACHMENT_OPTIMAL,
                    IMAGE_LAYOUT_COLOR_ATTACHMENT_OPTIMAL,
                ),
                None => depth is None && atts.len() == colors.len(),
            }
        }),
{
}

/// An attachment's description keeps the attachment's own format, sample count,
/// load op and store op, and takes exactly the layouts it is given; its flags are
/// empty and its stencil is loaded and stored.
pub proof fn lemma_description_keeps_attachment(
    a: RenderPassAttachmentDesc,
    initial_layout: ImageLayout,
    final_layout: ImageLayout,
)
    ensures
        ({
            let d = attachment_description(a, initial_layout, final_layout);
            &&& d.format == a.format
            &&& d.samples == a.samples
            &&& d.load_op == a.load_op
            &&& d.store_op == a.store_op
            &&& d.initial_layout == initial_layout
            &&& d.final_layout == final_layout
            &&& d.flags == 0
            &&& d.stencil_load_op == AttachmentLoadOp::Load
            &&& d.stencil_store_op == AttachmentStoreOp::Store
        }),
{
}

/// A fresh attachment keeps its contents on both ends: its description loads and
/// stores them, whatever the layouts.
pub proof fn lemma_new_attachment_is_loaded_and_stored(
    format: i32,
    initial_layout: ImageLayout,
    final_layout: ImageLayout,
)
    ensures
        ({
            let a = RenderPassAttachmentDesc {
                format,
                load_op: AttachmentLoadOp::Load,
                store_op: AttachmentStoreOp::Store,
                samples: SAMPLE_COUNT_1,
            };
            &&& attachment_description(a, initial_layout, final_layout).load_op
                == AttachmentLoadOp::Load
            &&& attachment_description(a, initial_layout, final_layout).store_op
                == AttachmentStoreOp::Store
        }),
{
}

} // verus!
