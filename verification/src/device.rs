use vstd::prelude::*;

verus! {

/// Vulkan `VkQueueFlags` bit of queues that support graphics.
pub const QUEUE_GRAPHICS: u32 = 0x1;

/// A queue family of a physical device.
#[derive(Copy, Clone, PartialEq, Eq, Structural, Debug)]
pub struct QueueFamily {
    pub index: u32,
    /// Vulkan `VkQueueFlags` bits.
    pub queue_flags: u32,
}

pub open spec fn supports_graphics(q: QueueFamily) -> bool {
    q.queue_flags & QUEUE_GRAPHICS == QUEUE_GRAPHICS
}

/// The first queue family that supports graphics.
pub open spec fn first_graphics_family(families: Seq<QueueFamily>) -> Option<QueueFamily>
    decreases families.len(),
{
    if families.len() == 0 {
        None
    } else if supports_graphics(families[0]) {
        Some(families[0])
    } else {
        first_graphics_family(families.drop_first())
    }
}

/// Why a device cannot be created.
#[derive(Copy, Clone, PartialEq, Eq, Structural, Debug)]
pub enum DeviceError {
    /// No queue family supports graphics.
    NoSuitableRenderQueue,
}

/// The queue family the device renders on: the first one that supports graphics.
pub fn select_main_queue(families: &[QueueFamily]) -> (r: Result<QueueFamily, DeviceError>)
    ensures
        r == match first_graphics_family(families@) {
            Some(q) => Ok::<QueueFamily, DeviceError>(q),
            None => Err(DeviceError::NoSuitableRenderQueue),
        },
{
    let mut i: usize = 0;
    assert(families@.subrange(0, families@.len() as int) =~= families@);
    while i < families.len()
        invariant
            0 <= i <= families@.len(),
            first_graphics_family(families@) == first_graphics_family(
                families@.subrange(i as int, families@.len() as int),
            ),
        decreases families@.len() - i,
    {
        let ghost rest = families@.subrange(i as int, families@.len() as int);
        let q = families[i];
        if q.queue_flags & QUEUE_GRAPHICS == QUEUE_GRAPHICS {
            return Ok(q);
        }
        assert(rest.drop_first() =~= families@.subrange(i + 1, families@.len() as int));
        i = i + 1;
    }
    assert(families@.subrange(i as int, families@.len() as int).len() == 0);
    Err(DeviceError::NoSuitableRenderQueue)
}

/// The chosen queue family supports graphics and every earlier one does not.
pub proof fn lemma_first_graphics_family_is_first(families: Seq<QueueFamily>)
    ensures
        match first_graphics_family(families) {
            Some(q) => exists|i: int|
                0 <= i < families.len() && families[i] == q && supports_graphics(q) && forall|j: int|
                    0 <= j < i ==> !supports_graphics(#[trigger] families[j]),
            None => forall|i: int| 0 <= i < families.len() ==> !supports_graphics(#[trigger] families[i]),
        },
    decreases families.len(),
{
    if families.len() > 0 && !supports_graphics(families[0]) {
        let rest = families.drop_first();
        lemma_first_graphics_family_is_first(rest);
        match first_graphics_family(rest) {
            Some(q) => {
                let i = choose|i: int|
                    0 <= i < rest.len() && rest[i] == q && supports_graphics(q) && forall|j: int|
                        0 <= j < i ==> !supports_graphics(#[trigger] rest[j]);
                assert(families[i + 1] == q);
                assert forall|j: int| 0 <= j < i + 1 implies !supports_graphics(#[trigger] families[j]) by {
                    if j > 0 {
                        assert(families[j] == rest[j - 1]);
                    }
                }
            },
            None => {
                assert forall|i: int| 0 <= i < families.len() implies !supports_graphics(#[trigger] families[i]) by {
                    if i > 0 {
                        assert(families[i] == rest[i - 1]);
                    }
                }
            },
        }
    }
}

/// A device extension the renderer enables.
#[derive(Copy, Clone, PartialEq, Eq, Structural, Debug)]
pub enum DeviceExtension {
    ExtDescriptorIndexing,
    ExtScalarBlockLayout,
    KhrMaintenance1,
    KhrMaintenance2,
    KhrMaintenance3,
    KhrGetMemoryRequirements2,
    KhrImagelessFramebuffer,
    KhrImageFormatList,
    ExtFragmentShaderInterlock,
    KhrRayTracing,
    KhrPipelineLibrary,
    KhrDeferredHostOperations,
    KhrSwapchain,
}

/// The extensions every device is created with, in order (descriptor indexing
/// is listed twice).
pub open spec fn base_device_extensions() -> Seq<DeviceExtension> {
    seq![
        DeviceExtension::ExtDescriptorIndexing,
        DeviceExtension::ExtScalarBlockLayout,
        DeviceExtension::KhrMaintenance1,
        DeviceExtension::KhrMaintenance2,
        DeviceExtension::KhrMaintenance3,
        DeviceExtension::KhrGetMemoryRequirements2,
        DeviceExtension::ExtDescriptorIndexing,
        DeviceExtension::KhrImagelessFramebuffer,
        DeviceExtension::KhrImageFormatList,
        DeviceExtension::ExtFragmentShaderInterlock,
        DeviceExtension::KhrRayTracing,
        DeviceExtension::KhrPipelineLibrary,
        DeviceExtension::KhrDeferredHostOperations,
    ]
}

pub open spec fn device_extensions(presentation_requested: bool) -> Seq<DeviceExtension> {
    if presentation_requested {
        base_device_extensions().push(DeviceExtension::KhrSwapchain)
    } else {
        base_device_extensions()
    }
}

/// The extensions to create a device with: the base ones, then the swapchain
/// extension if the device is to present.
pub fn extension_names(presentation_requested: bool) -> (r: Vec<DeviceExtension>)
    ensures
        r@ == device_extensions(presentation_requested),
{
    let mut names = vec![
        DeviceExtension::ExtDescriptorIndexing,
        DeviceExtension::ExtScalarBlockLayout,
        DeviceExtension::KhrMaintenance1,
        DeviceExtension::KhrMaintenance2,
        DeviceExtension::KhrMaintenance3,
        DeviceExtension::KhrGetMemoryRequirements2,
        DeviceExtension::ExtDescriptorIndexing,
        DeviceExtension::KhrImagelessFramebuffer,
        DeviceExtension::KhrImageFormatList,
        DeviceExtension::ExtFragmentShaderInterlock,
        DeviceExtension::KhrRayTracing,
        DeviceExtension::KhrPipelineLibrary,
        DeviceExtension::KhrDeferredHostOperations,
    ];
    assert(names@ =~= base_device_extensions());
    if presentation_requested {
        names.push(DeviceExtension::KhrSwapchain);
    }
    names
}

/// The swapchain extension is enabled exactly when the device is to present.
pub proof fn lemma_swapchain_iff_presentation(presentation_requested: bool)
    ensures
        device_extensions(presentation_requested).contains(DeviceExtension::KhrSwapchain)
            <==> presentation_requested,
        device_extensions(presentation_requested).subrange(0, 13) == base_device_extensions(),
{
    let s = device_extensions(presentation_requested);
    let b = base_device_extensions();
    assert(s.subrange(0, 13) =~= b);
    if presentation_requested {
        assert(s[13] == DeviceExtension::KhrSwapchain);
    } else {
        assert forall|i: int| 0 <= i < s.len() implies s[i] != DeviceExtension::KhrSwapchain by {
            assert(b[i] != DeviceExtension::KhrSwapchain);
        }
    }
}

/// A queue family supports graphics exactly when its lowest flag bit (Vulkan's
/// `GRAPHICS`) is set, whatever its other bits.
pub proof fn lemma_graphics_is_the_lowest_bit(q: QueueFamily)
    ensures
        supports_graphics(q) <==> q.queue_flags % 2 == 1,
{
    let f = q.queue_flags;
    assert((f & 0x1 == 0x1) <==> f % 2 == 1) by (bit_vector);
}

/// The main queue family is the first one whose lowest flag bit is set; there is
/// none exactly when no family has that bit.
pub proof fn lemma_main_queue_is_first_with_graphics_bit(families: Seq<QueueFamily>)
    ensures
        match first_graphics_family(families) {
            Some(q) => exists|i: int|
                0 <= i < families.len() && families[i] == q && q.queue_flags % 2 == 1 && forall|
                    j: int,
                | 0 <= j < i ==> (#[trigger] families[j]).queue_flags % 2 == 0,
            None => forall|i: int| 0 <= i < families.len() ==> (#[trigger] families[i]).queue_flags % 2 == 0,
        },
{
    lemma_first_graphics_family_is_first(families);
    assert forall|q: QueueFamily| supports_graphics(q) <==> #[trigger] (q.queue_flags % 2) == 1 by {
        lemma_graphics_is_the_lowest_bit(q);
    }
}

/// The device extensions hold every extension of `DeviceExtension` except the
/// swapchain, thirteen in all with descriptor indexing as the only one listed
/// twice, and the swapchain extension last exactly when the device presents.
pub proof fn lemma_device_extensions_enable_every_extension(presentation_requested: bool)
    ensures
        forall|e: DeviceExtension|
            e != DeviceExtension::KhrSwapchain ==> device_extensions(presentation_requested).contains(
                e,
            ),
        device_extensions(presentation_requested).len() == if presentation_requested {
            14int
        } else {
            13int
        },
        forall|i: int, j: int|
            0 <= i < j < 13 && device_extensions(presentation_requested)[i] == device_extensions(
                presentation_requested,
            )[j] ==> device_extensions(presentation_requested)[i]
                == DeviceExtension::ExtDescriptorIndexing,
        device_extensions(presentation_requested).contains(DeviceExtension::KhrSwapchain)
            <==> presentation_requested,
        presentation_requested ==> device_extensions(presentation_requested)[13]
            == DeviceExtension::KhrSwapchain,
{
    let s = device_extensions(presentation_requested);
    let b = base_device_extensions();
    lemma_swapchain_iff_presentation(presentation_requested);
    assert(forall|i: int| 0 <= i < 13 ==> s[i] == b[i]);
    assert forall|e: DeviceExtension| e != DeviceExtension::KhrSwapchain implies s.contains(e) by {
        let i: int = match e {
            DeviceExtension::ExtDescriptorIndexing => 0,
            DeviceExtension::ExtScalarBlockLayout => 1,
            DeviceExtension::KhrMaintenance1 => 2,
            DeviceExtension::KhrMaintenance2 => 3,
            DeviceExtension::KhrMaintenance3 => 4,
            DeviceExtension::KhrGetMemoryRequirements2 => 5,
            DeviceExtension::KhrImagelessFramebuffer => 7,
            DeviceExtension::KhrImageFormatList => 8,
            DeviceExtension::ExtFragmentShaderInterlock => 9,
            DeviceExtension::KhrRayTracing => 10,
            DeviceExtension::KhrPipelineLibrary => 11,
            DeviceExtension::KhrDeferredHostOperations => 12,
            DeviceExtension::KhrSwapchain => 13,
        };
        assert(s[i] == e);
    }
}

} // verus!
