use vk_backend::device::{extension_names, select_main_queue, DeviceError, DeviceExtension, QueueFamily};

#[test]
fn picks_first_graphics_family() {
    let families = [
        QueueFamily { index: 0, queue_flags: 0x4 },
        QueueFamily { index: 1, queue_flags: 0x7 },
        QueueFamily { index: 2, queue_flags: 0x1 },
    ];
    assert_eq!(select_main_queue(&families), Ok(families[1]));
}

#[test]
fn no_graphics_family_is_an_error() {
    let families = [QueueFamily { index: 0, queue_flags: 0x2 }, QueueFamily { index: 1, queue_flags: 0x4 }];
    assert_eq!(select_main_queue(&families), Err(DeviceError::NoSuitableRenderQueue));
    assert_eq!(select_main_queue(&[]), Err(DeviceError::NoSuitableRenderQueue));
}

#[test]
fn swapchain_only_when_presenting() {
    let headless = extension_names(false);
    let presenting = extension_names(true);
    assert_eq!(headless.len(), 13);
    assert_eq!(presenting.len(), 14);
    assert!(!headless.contains(&DeviceExtension::KhrSwapchain));
    assert_eq!(presenting[13], DeviceExtension::KhrSwapchain);
    assert_eq!(&presenting[..13], &headless[..]);
    assert_eq!(headless[0], DeviceExtension::ExtDescriptorIndexing);
    assert_eq!(headless[6], DeviceExtension::ExtDescriptorIndexing);
    assert_eq!(headless[10], DeviceExtension::KhrRayTracing);
}
