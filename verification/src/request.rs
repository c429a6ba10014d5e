//! From a GPU request to the CDI device identifiers that a container gets.

use vstd::prelude::*;
use crate::config::CDI_GPU_DEVICE_ALL;
use crate::error::CdiGpuSelectionError;
use crate::inventory;
use crate::round_robin;

verus! {

/// What a GPU request resolves to. `None` stands for no GPU request. Configured devices are used
/// as they are; without any, the selected default device is the only one.
pub open spec fn resolved_device_ids(
    gpu: bool,
    cdi_devices: Seq<Seq<char>>,
    selected_default_device: Option<Seq<char>>,
) -> Result<Option<Seq<Seq<char>>>, CdiGpuSelectionError> {
    if !gpu {
        Ok(None)
    } else if cdi_devices.len() > 0 {
        Ok(Some(cdi_devices))
    } else {
        match selected_default_device {
            Some(device) => Ok(Some(seq![device])),
            None => Err(CdiGpuSelectionError::MissingDefaultDevice),
        }
    }
}

/// What a GPU request resolves to where every GPU is the default.
pub open spec fn resolved_device_ids_or_all(gpu: bool, cdi_devices: Seq<Seq<char>>) -> Option<
    Seq<Seq<char>>,
> {
    if !gpu {
        None
    } else if cdi_devices.len() > 0 {
        Some(cdi_devices)
    } else {
        Some(seq![CDI_GPU_DEVICE_ALL@])
    }
}

/// A result with the texts of its device identifiers.
pub open spec fn resolved_text(res: Result<Option<Vec<String>>, CdiGpuSelectionError>) -> Result<
    Option<Seq<Seq<char>>>,
    CdiGpuSelectionError,
> {
    match res {
        Ok(devices) => Ok(devices.deep_view()),
        Err(error) => Err(error),
    }
}

/// Resolve a local runtime GPU request into CDI device identifiers.
///
/// `None` means no GPU was requested. Explicit driver-configured CDI devices
/// pass through unchanged. A default GPU request uses the driver-selected
/// default CDI ID.
pub fn cdi_gpu_device_ids(
    gpu: bool,
    cdi_devices: &[String],
    selected_default_device: Option<&str>,
) -> (res: Result<Option<Vec<String>>, CdiGpuSelectionError>)
    ensures
        resolved_text(res) == resolved_device_ids(
            gpu,
            cdi_devices.deep_view(),
            selected_default_device.deep_view(),
        ),
        !gpu ==> (res matches Ok(devices) && devices is None),
        gpu && cdi_devices@.len() > 0 ==> (res matches Ok(Some(ids)) && ids@.len()
            == cdi_devices@.len() && forall|i: int|
            0 <= i < cdi_devices@.len() ==> (#[trigger] ids@[i])@ == cdi_devices@[i]@),
        gpu && cdi_devices@.len() == 0 ==> match selected_default_device {
            Some(device) => res matches Ok(Some(ids)) && ids@.len() == 1 && ids@[0]@ == device@,
            None => res matches Err(error) && error == CdiGpuSelectionError::MissingDefaultDevice,
        },
{
    if !gpu {
        return Ok(None);
    }
    if !cdi_devices.is_empty() {
        return Ok(Some(copied(cdi_devices)));
    }
    match selected_default_device {
        Some(device) => Ok(Some(single(device))),
        None => Err(CdiGpuSelectionError::MissingDefaultDevice),
    }
}

/// Resolve a GPU request with the legacy all-GPU default.
#[must_use]
pub fn cdi_gpu_device_ids_or_all(gpu: bool, cdi_devices: &[String]) -> (res: Option<Vec<String>>)
    ensures
        res.deep_view() == resolved_device_ids_or_all(gpu, cdi_devices.deep_view()),
        !gpu ==> res is None,
        gpu && cdi_devices@.len() > 0 ==> (res matches Some(ids) && ids@.len() == cdi_devices@.len()
            && forall|i: int|
            0 <= i < cdi_devices@.len() ==> (#[trigger] ids@[i])@ == cdi_devices@[i]@),
        gpu && cdi_devices@.len() == 0 ==> (res matches Some(ids) && ids@.len() == 1 && ids@[0]@
            == "nvidia.com/gpu=all"@),
{
    if !gpu {
        None
    } else if cdi_devices.is_empty() {
        Some(single(CDI_GPU_DEVICE_ALL))
    } else {
        Some(copied(cdi_devices))
    }
}

/// A list of one identifier.
fn single(id: &str) -> (res: Vec<String>)
    ensures
        res.deep_view() == seq![id@],
        res@.len() == 1,
        res@[0]@ == id@,
{
    let res: Vec<String> = vec![id.to_string()];
    assert(res.deep_view() =~= seq![id@]);
    res
}

/// A copy of a list of identifiers.
fn copied(ids: &[String]) -> (res: Vec<String>)
    ensures
        res.deep_view() == ids.deep_view(),
        res@.len() == ids@.len(),
        forall|i: int| 0 <= i < ids@.len() ==> (#[trigger] res@[i])@ == ids@[i]@,
{
    let mut res: Vec<String> = Vec::new();
    for i in 0..ids.len()
        invariant
            res.deep_view() =~= ids.deep_view().take(i as int),
    {
        let ghost before = res.deep_view();
        res.push(ids[i].clone());
        assert(res.deep_view() =~= before.push(ids.deep_view()[i as int]));
    }
    assert(ids.deep_view().take(ids.deep_view().len() as int) =~= ids.deep_view());
    assert forall|i: int| 0 <= i < ids@.len() implies (#[trigger] res@[i])@ == ids@[i]@ by {
        assert(res.deep_view()[i] == ids.deep_view()[i]);
    }
    res
}

/// A request fails only for want of a default device, and then exactly where a GPU is requested,
/// no device is configured and no default is selected.
pub proof fn law_only_a_missing_default_fails(
    gpu: bool,
    cdi_devices: Seq<Seq<char>>,
    selected_default_device: Option<Seq<char>>,
)
    ensures
        match resolved_device_ids(gpu, cdi_devices, selected_default_device) {
            Ok(devices) => !(gpu && cdi_devices.len() == 0 && selected_default_device is None)
                && (devices is None <==> !gpu) && (devices matches Some(ids) ==> ids.len() > 0),
            Err(error) => gpu && cdi_devices.len() == 0 && selected_default_device is None && error
                == CdiGpuSelectionError::MissingDefaultDevice,
        },
{
}

/// The default device does not matter where devices are configured.
pub proof fn law_configured_devices_win(
    gpu: bool,
    cdi_devices: Seq<Seq<char>>,
    first: Option<Seq<char>>,
    second: Option<Seq<char>>,
)
    requires
        cdi_devices.len() > 0,
    ensures
        resolved_device_ids(gpu, cdi_devices, first) == resolved_device_ids(
            gpu,
            cdi_devices,
            second,
        ),
{
}

/// The all-GPU default is the selected default device `nvidia.com/gpu=all`, and such a request
/// never fails.
pub proof fn law_all_default_is_a_selected_default(gpu: bool, cdi_devices: Seq<Seq<char>>)
    ensures
        resolved_device_ids(gpu, cdi_devices, Some(CDI_GPU_DEVICE_ALL@)) matches Ok(devices)
            && devices == resolved_device_ids_or_all(gpu, cdi_devices),
{
}

/// A default request for which an inventory gives a device resolves to that device alone, and
/// the device is one of the inventory.
pub proof fn law_default_request_gets_an_inventory_device(
    ids: Seq<Seq<char>>,
    cursor: usize,
    allow_all_devices: bool,
)
    requires
        inventory::is_normalized(ids),
    ensures
        round_robin::selection(ids, cursor, allow_all_devices) matches Ok(id) ==> {
            &&& resolved_device_ids(true, seq![], Some(id)) matches Ok(Some(devices))
            &&& devices == seq![id]
            &&& ids.contains(id)
        },
{
    round_robin::law_selection_is_in_family(ids, cursor, allow_all_devices);
}

/// Configured devices pass through unchanged: as many, in the same places, with the same texts,
/// whatever the selected default and also where every GPU is the default.
pub proof fn law_configured_devices_pass_through(
    cdi_devices: Seq<Seq<char>>,
    selected_default_device: Option<Seq<char>>,
)
    requires
        cdi_devices.len() > 0,
    ensures
        resolved_device_ids(true, cdi_devices, selected_default_device) matches Ok(Some(ids))
            && ids.len() == cdi_devices.len() && (forall|i: int|
            0 <= i < cdi_devices.len() ==> #[trigger] ids[i] == cdi_devices[i]),
        resolved_device_ids_or_all(true, cdi_devices) matches Some(ids) && ids.len()
            == cdi_devices.len() && (forall|i: int|
            0 <= i < cdi_devices.len() ==> #[trigger] ids[i] == cdi_devices[i]),
{
}

/// Without configured devices a request gets one device: the selected default, or every GPU where
/// that is the default.
pub proof fn law_default_requests_get_one_device(device: Seq<char>)
    ensures
        resolved_device_ids(true, seq![], Some(device)) matches Ok(Some(ids)) && ids.len() == 1
            && ids[0] == device,
        resolved_device_ids_or_all(true, seq![]) matches Some(ids) && ids.len() == 1 && ids[0]
            == "nvidia.com/gpu=all"@,
{
}

/// No request for a GPU, no devices, whatever is configured or selected.
pub proof fn law_no_request_gets_no_device(
    cdi_devices: Seq<Seq<char>>,
    selected_default_device: Option<Seq<char>>,
)
    ensures
        resolved_device_ids(false, cdi_devices, selected_default_device) matches Ok(devices)
            && devices is None,
        resolved_device_ids_or_all(false, cdi_devices) is None,
{
}

} // verus!
