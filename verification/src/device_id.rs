//! The form of NVIDIA GPU identifiers: a vendor and class prefix, then the name of one device.

use vstd::prelude::*;
use crate::config::CDI_GPU_DEVICE_ALL;
use crate::text;
use crate::text::{after_prefix, parse_u64};

verus! {

/// What every NVIDIA GPU identifier starts with.
pub const CDI_NVIDIA_GPU_PREFIX: &'static str = "nvidia.com/gpu=";

/// The device name that stands for every NVIDIA GPU.
pub const CDI_NVIDIA_GPU_ALL_SUFFIX: &'static str = "all";

/// The device name in an NVIDIA GPU identifier.
pub open spec fn gpu_suffix(id: Seq<char>) -> Option<Seq<char>> {
    if CDI_NVIDIA_GPU_PREFIX@.is_prefix_of(id) {
        Some(id.skip(CDI_NVIDIA_GPU_PREFIX@.len() as int))
    } else {
        None
    }
}

/// The device number in an NVIDIA GPU identifier whose device name is a number.
pub open spec fn gpu_index(id: Seq<char>) -> Option<u64> {
    match gpu_suffix(id) {
        Some(suffix) => text::parsed_u64(suffix),
        None => None,
    }
}

/// The identifier names a device of its own, as against every GPU at once.
pub open spec fn names_one_gpu(id: Seq<char>) -> bool {
    gpu_suffix(id) is Some && gpu_suffix(id) != Some(CDI_NVIDIA_GPU_ALL_SUFFIX@)
}

/// Returns the device name in an NVIDIA GPU identifier.
pub fn cdi_nvidia_gpu_suffix(id: &str) -> (res: Option<&str>)
    ensures
        match res {
            Some(suffix) => gpu_suffix(id@) == Some(suffix@),
            None => gpu_suffix(id@) is None,
        },
        match res {
            Some(suffix) => id@ == "nvidia.com/gpu="@ + suffix@,
            None => !"nvidia.com/gpu="@.is_prefix_of(id@),
        },
{
    let res = after_prefix(id, CDI_NVIDIA_GPU_PREFIX);
    proof {
        if let Some(suffix) = res {
            assert(id@ =~= CDI_NVIDIA_GPU_PREFIX@ + suffix@);
        }
    }
    res
}

/// Returns the device number in an NVIDIA GPU identifier whose device name is a number.
pub fn cdi_nvidia_gpu_index(id: &str) -> (res: Option<u64>)
    ensures
        res == gpu_index(id@),
{
    match cdi_nvidia_gpu_suffix(id) {
        Some(suffix) => parse_u64(suffix),
        None => None,
    }
}

/// The identifier for every GPU is the one NVIDIA GPU identifier that names no device of its own,
/// and it has no device number.
pub proof fn law_all_is_the_only_collective_id(id: Seq<char>)
    ensures
        gpu_suffix(CDI_GPU_DEVICE_ALL@) == Some(CDI_NVIDIA_GPU_ALL_SUFFIX@),
        gpu_index(CDI_GPU_DEVICE_ALL@) is None,
        gpu_suffix(id) is Some && !names_one_gpu(id) <==> id == CDI_GPU_DEVICE_ALL@,
{
    reveal_strlit("nvidia.com/gpu=all");
    reveal_strlit("nvidia.com/gpu=");
    reveal_strlit("all");
    let prefix = CDI_NVIDIA_GPU_PREFIX@;
    let all = CDI_GPU_DEVICE_ALL@;
    assert(all =~= prefix + CDI_NVIDIA_GPU_ALL_SUFFIX@);
    assert(prefix.is_prefix_of(all));
    assert(all.skip(prefix.len() as int) =~= CDI_NVIDIA_GPU_ALL_SUFFIX@);
    assert(!text::decimal_digit(CDI_NVIDIA_GPU_ALL_SUFFIX@[0]));
    if gpu_suffix(id) == Some(CDI_NVIDIA_GPU_ALL_SUFFIX@) {
        assert(id =~= prefix + id.skip(prefix.len() as int));
    }
}

/// The device name is everything after `nvidia.com/gpu=`, whatever it is and however long, and
/// only an identifier that starts so has one.
pub proof fn law_device_name_follows_the_prefix(id: Seq<char>, name: Seq<char>)
    ensures
        gpu_suffix(id) == Some(name) <==> id == "nvidia.com/gpu="@ + name,
        gpu_suffix("nvidia.com/gpu="@ + name) == Some(name),
        gpu_suffix(id) is None <==> !"nvidia.com/gpu="@.is_prefix_of(id),
{
    let prefix = "nvidia.com/gpu="@;
    assert(prefix.is_prefix_of(prefix + name)) by {
        assert((prefix + name).subrange(0, prefix.len() as int) =~= prefix);
    }
    assert((prefix + name).skip(prefix.len() as int) =~= name);
    if prefix.is_prefix_of(id) {
        assert(id =~= prefix + id.skip(prefix.len() as int));
    }
}

/// The device number is the number that the device name spells, and nothing else has one.
pub proof fn law_device_number_is_the_name_as_a_number(id: Seq<char>, name: Seq<char>)
    ensures
        gpu_index("nvidia.com/gpu="@ + name) == text::parsed_u64(name),
        !"nvidia.com/gpu="@.is_prefix_of(id) ==> gpu_index(id) is None,
{
    law_device_name_follows_the_prefix(id, name);
}

/// An NVIDIA GPU identifier names a device of its own unless its device name is `all`.
pub proof fn law_all_is_the_only_reserved_name(id: Seq<char>, name: Seq<char>)
    ensures
        names_one_gpu("nvidia.com/gpu="@ + name) <==> name != "all"@,
        !"nvidia.com/gpu="@.is_prefix_of(id) ==> !names_one_gpu(id),
        CDI_GPU_DEVICE_ALL@ == "nvidia.com/gpu=all"@,
{
    law_device_name_follows_the_prefix(id, name);
}

} // verus!
