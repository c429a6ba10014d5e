//! Device identifiers with a fixed meaning.

use vstd::prelude::*;

verus! {

/// The CDI identifier that requests every NVIDIA GPU.
pub const CDI_GPU_DEVICE_ALL: &'static str = "nvidia.com/gpu=all";

} // verus!
