use openshell_gpu::{
    cdi_gpu_device_ids, cdi_gpu_device_ids_or_all, default_device_turn, CdiGpuInventory,
    CdiGpuRoundRobin, CdiGpuSelectionError, CDI_GPU_DEVICE_ALL,
};

fn strings(ids: &[&str]) -> Vec<String> {
    ids.iter().map(|id| id.to_string()).collect()
}

fn assert_shareable<T: Send + Sync>(_value: &T) {}

#[test]
fn all_devices_id_is_the_nvidia_collective() {
    assert_eq!(CDI_GPU_DEVICE_ALL, "nvidia.com/gpu=all");
}

#[test]
fn inventory_sorts_by_text_not_by_number() {
    let inventory =
        CdiGpuInventory::new(&["nvidia.com/gpu=2", "nvidia.com/gpu=b", "nvidia.com/gpu=10"]);
    assert_eq!(
        inventory.as_slice(),
        &strings(&["nvidia.com/gpu=10", "nvidia.com/gpu=2", "nvidia.com/gpu=b"])
    );
}

#[test]
fn inventory_trims_unicode_white_space_before_it_filters() {
    let inventory = CdiGpuInventory::new(&[
        "\u{a0}\tnvidia.com/gpu=1\r\n",
        "nvidia.com/gpu=1",
        "x nvidia.com/gpu=2",
        "nvidia.com/gpu= 3",
    ]);
    assert_eq!(
        inventory.as_slice(),
        &strings(&["nvidia.com/gpu= 3", "nvidia.com/gpu=1"])
    );
}

#[test]
fn inventory_depends_only_on_which_gpus_are_reported() {
    let first = CdiGpuInventory::new(&["nvidia.com/gpu=0", "nvidia.com/gpu=1"]);
    let second = CdiGpuInventory::new(&[
        " nvidia.com/gpu=1",
        "vendor.example/device=0",
        "nvidia.com/gpu=0",
        "nvidia.com/gpu=1 ",
    ]);
    assert_eq!(first, second);
    assert_ne!(first, CdiGpuInventory::new(&["nvidia.com/gpu=0"]));
    assert_ne!(
        first,
        CdiGpuInventory::new(&["nvidia.com/gpu=0", "nvidia.com/gpu=2"])
    );
}

#[test]
fn inventory_of_an_inventory_is_the_same() {
    let inventory = CdiGpuInventory::new(&["nvidia.com/gpu=b", "nvidia.com/gpu=a", "other"]);
    let ids: Vec<&str> = inventory.as_slice().iter().map(String::as_str).collect();
    assert_eq!(CdiGpuInventory::new(&ids), inventory);
    assert_eq!(inventory.clone(), inventory);
}

#[test]
fn inventory_is_empty_without_nvidia_gpus() {
    assert!(CdiGpuInventory::new(&[]).is_empty());
    assert!(CdiGpuInventory::new(&["", "vendor.example/device=0", "nvidia.com/gpu"]).is_empty());
    assert!(CdiGpuInventory::default().is_empty());
    assert_eq!(CdiGpuInventory::default(), CdiGpuInventory::new(&[]));
    assert!(!CdiGpuInventory::new(&["nvidia.com/gpu="]).is_empty());
}

#[test]
fn family_orders_equal_numbers_by_text() {
    let inventory = CdiGpuInventory::new(&[
        "nvidia.com/gpu=1",
        "nvidia.com/gpu=01",
        "nvidia.com/gpu=+1",
        "nvidia.com/gpu=0",
        "nvidia.com/gpu=18446744073709551615",
        "nvidia.com/gpu=18446744073709551616",
    ]);
    assert_eq!(
        inventory.default_device_family(false),
        Ok(strings(&[
            "nvidia.com/gpu=0",
            "nvidia.com/gpu=+1",
            "nvidia.com/gpu=01",
            "nvidia.com/gpu=1",
            "nvidia.com/gpu=18446744073709551615",
        ]))
    );
}

#[test]
fn family_of_names_leaves_all_out() {
    let inventory = CdiGpuInventory::new(&[
        CDI_GPU_DEVICE_ALL,
        "nvidia.com/gpu=UUID-b",
        "nvidia.com/gpu=",
        "nvidia.com/gpu=UUID-a",
    ]);
    let expected = Ok(strings(&[
        "nvidia.com/gpu=",
        "nvidia.com/gpu=UUID-a",
        "nvidia.com/gpu=UUID-b",
    ]));
    assert_eq!(inventory.default_device_family(false), expected);
    assert_eq!(inventory.default_device_family(true), expected);
}

#[test]
fn family_of_all_needs_permission() {
    let inventory = CdiGpuInventory::new(&[CDI_GPU_DEVICE_ALL]);
    assert_eq!(
        inventory.default_device_family(true),
        Ok(strings(&[CDI_GPU_DEVICE_ALL]))
    );
    assert_eq!(
        inventory.default_device_family(false),
        Err(CdiGpuSelectionError::AllDevicesDefaultUnsupported)
    );
    assert_eq!(
        CdiGpuInventory::default().default_device_family(true),
        Err(CdiGpuSelectionError::NoAvailableDevices)
    );
}

#[test]
fn round_robin_is_shareable() {
    assert_shareable(&CdiGpuRoundRobin::new());
}

#[test]
fn round_robin_default_starts_with_the_first_device() {
    let inventory = CdiGpuInventory::new(&["nvidia.com/gpu=0", "nvidia.com/gpu=1"]);
    assert_eq!(
        CdiGpuRoundRobin::default().next_default_device_id(&inventory, false),
        Ok("nvidia.com/gpu=0".to_string())
    );
}

#[test]
fn round_robin_gives_every_device_one_turn_per_round() {
    let inventory =
        CdiGpuInventory::new(&["nvidia.com/gpu=2", "nvidia.com/gpu=0", "nvidia.com/gpu=1"]);
    let selector = CdiGpuRoundRobin::new();
    for _ in 0..4 {
        for id in ["nvidia.com/gpu=0", "nvidia.com/gpu=1", "nvidia.com/gpu=2"] {
            assert_eq!(
                selector.peek_default_device_id(&inventory, false),
                Ok(id.to_string())
            );
            assert_eq!(
                selector.next_default_device_id(&inventory, false),
                Ok(id.to_string())
            );
        }
    }
}

#[test]
fn round_robin_refusal_does_not_advance_the_cursor() {
    let devices = CdiGpuInventory::new(&["nvidia.com/gpu=0", "nvidia.com/gpu=1"]);
    let all = CdiGpuInventory::new(&[CDI_GPU_DEVICE_ALL]);
    let selector = CdiGpuRoundRobin::new();
    assert!(selector.next_default_device_id(&all, false).is_err());
    assert!(selector
        .next_default_device_id(&CdiGpuInventory::default(), true)
        .is_err());
    assert!(selector.peek_default_device_id(&all, false).is_err());
    assert_eq!(
        selector.next_default_device_id(&devices, false),
        Ok("nvidia.com/gpu=0".to_string())
    );
}

#[test]
fn round_robin_keeps_its_cursor_across_inventories() {
    let two = CdiGpuInventory::new(&["nvidia.com/gpu=0", "nvidia.com/gpu=1"]);
    let three = CdiGpuInventory::new(&["nvidia.com/gpu=a", "nvidia.com/gpu=b", "nvidia.com/gpu=c"]);
    let selector = CdiGpuRoundRobin::new();
    assert_eq!(
        selector.next_default_device_id(&two, false),
        Ok("nvidia.com/gpu=0".to_string())
    );
    assert_eq!(
        selector.next_default_device_id(&three, false),
        Ok("nvidia.com/gpu=b".to_string())
    );
    assert_eq!(
        selector.next_default_device_id(&two, false),
        Ok("nvidia.com/gpu=0".to_string())
    );
}

#[test]
fn owned_turns_agree_with_the_shared_cursor() {
    let inventory =
        CdiGpuInventory::new(&["nvidia.com/gpu=0", "nvidia.com/gpu=1", "nvidia.com/gpu=2"]);
    let selector = CdiGpuRoundRobin::new();
    let mut cursor: usize = 0;
    for turn in 0..10 {
        let consume = turn % 3 != 1;
        let shared = if consume {
            selector.next_default_device_id(&inventory, false)
        } else {
            selector.peek_default_device_id(&inventory, false)
        };
        let (owned, next) = default_device_turn(&inventory, cursor, consume, false);
        assert_eq!(owned, shared);
        assert_eq!(next, if consume { cursor + 1 } else { cursor });
        cursor = next;
    }
}

#[test]
fn cursor_counts_the_turns_taken_across_inventories() {
    let two = CdiGpuInventory::new(&["nvidia.com/gpu=0", "nvidia.com/gpu=1"]);
    let three = CdiGpuInventory::new(&["nvidia.com/gpu=a", "nvidia.com/gpu=b", "nvidia.com/gpu=c"]);
    let all = CdiGpuInventory::new(&[CDI_GPU_DEVICE_ALL]);
    let none = CdiGpuInventory::default();
    let run = [
        (&two, true, false),
        (&three, true, false),
        (&three, false, true),
        (&all, true, false),
        (&all, true, true),
        (&none, true, true),
        (&all, false, false),
        (&three, true, true),
        (&two, true, true),
    ];
    let selector = CdiGpuRoundRobin::new();
    let mut cursor: usize = 0;
    let mut taken: usize = 0;
    for (inventory, consume, allow_all_devices) in run {
        let shared = if consume {
            selector.next_default_device_id(inventory, allow_all_devices)
        } else {
            selector.peek_default_device_id(inventory, allow_all_devices)
        };
        let (owned, next) = default_device_turn(inventory, cursor, consume, allow_all_devices);
        assert_eq!(owned, shared);
        match inventory.default_device_family(allow_all_devices) {
            Ok(family) => {
                assert_eq!(owned, Ok(family[taken % family.len()].clone()));
                if consume {
                    taken += 1;
                }
            }
            Err(error) => assert_eq!(owned, Err(error)),
        }
        cursor = next;
        assert_eq!(cursor, taken);
    }
    assert_eq!(cursor, 5);
    assert_eq!(
        selector.peek_default_device_id(&three, false),
        Ok("nvidia.com/gpu=c".to_string())
    );
}

#[test]
fn turn_after_the_largest_cursor_starts_over() {
    let two = CdiGpuInventory::new(&["nvidia.com/gpu=0", "nvidia.com/gpu=1"]);
    assert_eq!(
        default_device_turn(&two, usize::MAX, true, false),
        (Ok("nvidia.com/gpu=1".to_string()), 0)
    );
    assert_eq!(
        default_device_turn(&two, usize::MAX, false, false),
        (Ok("nvidia.com/gpu=1".to_string()), usize::MAX)
    );
    let three =
        CdiGpuInventory::new(&["nvidia.com/gpu=0", "nvidia.com/gpu=1", "nvidia.com/gpu=2"]);
    assert_eq!(
        default_device_turn(&three, usize::MAX, true, false),
        (Ok("nvidia.com/gpu=0".to_string()), 0)
    );
    assert_eq!(
        default_device_turn(&three, 0, true, false),
        (Ok("nvidia.com/gpu=0".to_string()), 1)
    );
}

#[test]
fn refused_turn_keeps_the_cursor() {
    assert_eq!(
        default_device_turn(&CdiGpuInventory::default(), 5, true, true),
        (Err(CdiGpuSelectionError::NoAvailableDevices), 5)
    );
    assert_eq!(
        default_device_turn(&CdiGpuInventory::new(&[CDI_GPU_DEVICE_ALL]), 5, true, false),
        (Err(CdiGpuSelectionError::AllDevicesDefaultUnsupported), 5)
    );
}

#[test]
fn request_without_gpu_ignores_everything_else() {
    assert_eq!(
        cdi_gpu_device_ids(false, &strings(&["x"]), Some("y")),
        Ok(None)
    );
    assert_eq!(cdi_gpu_device_ids_or_all(false, &strings(&["x"])), None);
    assert_eq!(cdi_gpu_device_ids_or_all(false, &[]), None);
}

#[test]
fn request_keeps_configured_devices_as_they_are() {
    let configured = strings(&["b", " a ", "b", "vendor.example/device=0"]);
    assert_eq!(
        cdi_gpu_device_ids(true, &configured, Some("nvidia.com/gpu=0")),
        Ok(Some(configured.clone()))
    );
    assert_eq!(
        cdi_gpu_device_ids_or_all(true, &configured),
        Some(configured)
    );
}

#[test]
fn all_default_is_a_selected_default() {
    for gpu in [false, true] {
        for configured in [strings(&[]), strings(&["nvidia.com/gpu=3"])] {
            assert_eq!(
                cdi_gpu_device_ids(gpu, &configured, Some(CDI_GPU_DEVICE_ALL)),
                Ok(cdi_gpu_device_ids_or_all(gpu, &configured))
            );
        }
    }
}

#[test]
fn selected_device_resolves_to_itself() {
    let inventory = CdiGpuInventory::new(&["nvidia.com/gpu=4", "nvidia.com/gpu=3"]);
    let id = CdiGpuRoundRobin::new()
        .next_default_device_id(&inventory, false)
        .unwrap();
    assert_eq!(
        cdi_gpu_device_ids(true, &[], Some(&id)),
        Ok(Some(strings(&["nvidia.com/gpu=3"])))
    );
}

#[test]
fn errors_explain_themselves() {
    assert_eq!(
        CdiGpuSelectionError::NoAvailableDevices.to_string(),
        "no NVIDIA CDI GPU devices were discovered"
    );
    assert_eq!(
        CdiGpuSelectionError::MissingDefaultDevice.to_string(),
        "GPU request requires a selected default CDI GPU device"
    );
    assert_eq!(
        CdiGpuSelectionError::AllDevicesDefaultUnsupported.to_string(),
        "default GPU request resolved only to nvidia.com/gpu=all, which is not allowed on this platform; set driver_config.cdi_devices to [\"nvidia.com/gpu=all\"] explicitly to request all GPUs"
    );
}
