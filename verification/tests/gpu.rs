use openshell_gpu::{
    cdi_gpu_device_ids, cdi_gpu_device_ids_or_all, CdiGpuInventory, CdiGpuRoundRobin,
    CdiGpuSelectionError, CDI_GPU_DEVICE_ALL,
};

#[test]
fn cdi_gpu_device_ids_returns_none_when_absent() {
    assert_eq!(cdi_gpu_device_ids(false, &[], None), Ok(None));
}

#[test]
fn cdi_gpu_device_ids_uses_selected_default_device() {
    assert_eq!(
        cdi_gpu_device_ids(true, &[], Some("nvidia.com/gpu=0")),
        Ok(Some(vec!["nvidia.com/gpu=0".to_string()]))
    );
}

#[test]
fn cdi_gpu_device_ids_rejects_missing_default_device() {
    assert_eq!(
        cdi_gpu_device_ids(true, &[], None),
        Err(CdiGpuSelectionError::MissingDefaultDevice)
    );
}

#[test]
fn cdi_gpu_device_ids_passes_explicit_device_ids_through() {
    assert_eq!(
        cdi_gpu_device_ids(
            true,
            &[
                "nvidia.com/gpu=0".to_string(),
                "nvidia.com/gpu=1".to_string()
            ],
            None
        ),
        Ok(Some(vec![
            "nvidia.com/gpu=0".to_string(),
            "nvidia.com/gpu=1".to_string()
        ]))
    );
}

#[test]
fn cdi_gpu_device_ids_or_all_uses_all_when_no_devices_are_configured() {
    assert_eq!(
        cdi_gpu_device_ids_or_all(true, &[]),
        Some(vec![CDI_GPU_DEVICE_ALL.to_string()])
    );
}

#[test]
fn inventory_filters_and_deduplicates_nvidia_gpu_ids() {
    let inventory = CdiGpuInventory::new(&[
        "nvidia.com/gpu=1",
        "vendor.example/device=0",
        "nvidia.com/gpu=1",
        " nvidia.com/gpu=0 ",
    ]);

    assert_eq!(
        inventory.as_slice(),
        &vec![
            "nvidia.com/gpu=0".to_string(),
            "nvidia.com/gpu=1".to_string()
        ]
    );
}

#[test]
fn round_robin_prefers_indexed_family_and_sorts_numerically() {
    let inventory = CdiGpuInventory::new(&[
        "nvidia.com/gpu=10",
        "nvidia.com/gpu=UUID-b",
        "nvidia.com/gpu=2",
        "nvidia.com/gpu=all",
    ]);
    let selector = CdiGpuRoundRobin::new();

    assert_eq!(
        selector.next_default_device_id(&inventory, false),
        Ok("nvidia.com/gpu=2".to_string())
    );
    assert_eq!(
        selector.next_default_device_id(&inventory, false),
        Ok("nvidia.com/gpu=10".to_string())
    );
    assert_eq!(
        selector.next_default_device_id(&inventory, false),
        Ok("nvidia.com/gpu=2".to_string())
    );
}

#[test]
fn round_robin_uses_named_family_when_no_indexed_ids_exist() {
    let inventory = CdiGpuInventory::new(&["nvidia.com/gpu=UUID-b", "nvidia.com/gpu=UUID-a"]);
    let selector = CdiGpuRoundRobin::new();

    assert_eq!(
        selector.next_default_device_id(&inventory, false),
        Ok("nvidia.com/gpu=UUID-a".to_string())
    );
}

#[test]
fn round_robin_uses_all_only_inventory_when_allowed() {
    let inventory = CdiGpuInventory::new(&[CDI_GPU_DEVICE_ALL]);
    let selector = CdiGpuRoundRobin::new();

    assert_eq!(
        selector.next_default_device_id(&inventory, true),
        Ok(CDI_GPU_DEVICE_ALL.to_string())
    );
}

#[test]
fn round_robin_rejects_all_only_inventory_when_not_allowed() {
    let inventory = CdiGpuInventory::new(&[CDI_GPU_DEVICE_ALL]);
    let selector = CdiGpuRoundRobin::new();

    assert_eq!(
        selector.next_default_device_id(&inventory, false),
        Err(CdiGpuSelectionError::AllDevicesDefaultUnsupported)
    );
}

#[test]
fn round_robin_rejects_empty_inventory() {
    let inventory = CdiGpuInventory::new(&["vendor.example/device=0"]);
    let selector = CdiGpuRoundRobin::new();

    assert_eq!(
        selector.next_default_device_id(&inventory, false),
        Err(CdiGpuSelectionError::NoAvailableDevices)
    );
}

#[test]
fn peek_does_not_advance_round_robin_cursor() {
    let inventory = CdiGpuInventory::new(&["nvidia.com/gpu=0", "nvidia.com/gpu=1"]);
    let selector = CdiGpuRoundRobin::new();

    assert_eq!(
        selector.peek_default_device_id(&inventory, false),
        Ok("nvidia.com/gpu=0".to_string())
    );
    assert_eq!(
        selector.peek_default_device_id(&inventory, false),
        Ok("nvidia.com/gpu=0".to_string())
    );
    assert_eq!(
        selector.next_default_device_id(&inventory, false),
        Ok("nvidia.com/gpu=0".to_string())
    );
    assert_eq!(
        selector.next_default_device_id(&inventory, false),
        Ok("nvidia.com/gpu=1".to_string())
    );
}
