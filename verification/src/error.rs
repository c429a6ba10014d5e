//! Why a GPU selection fails.

use vstd::prelude::*;

verus! {

/// CDI GPU selection failed.
#[derive(Debug, Clone, Copy, PartialEq, Eq, Structural)]
pub enum CdiGpuSelectionError {
    NoAvailableDevices,
    MissingDefaultDevice,
    AllDevicesDefaultUnsupported,
}

impl CdiGpuSelectionError {
    /// The text that explains the error to a user.
    pub open spec fn text(self) -> Seq<char> {
        match self {
            CdiGpuSelectionError::NoAvailableDevices => {
                "no NVIDIA CDI GPU devices were discovered"@
            },
            CdiGpuSelectionError::MissingDefaultDevice => {
                "GPU request requires a selected default CDI GPU device"@
            },
            CdiGpuSelectionError::AllDevicesDefaultUnsupported => {
                "default GPU request resolved only to nvidia.com/gpu=all, which is not allowed on this platform; set driver_config.cdi_devices to [\"nvidia.com/gpu=all\"] explicitly to request all GPUs"@
            },
        }
    }

    /// Explains the error to a user.
    pub fn to_string(&self) -> (res: String)
        ensures
            res@ == self.text(),
    {
        match self {
            CdiGpuSelectionError::NoAvailableDevices => {
                "no NVIDIA CDI GPU devices were discovered".to_string()
            },
            CdiGpuSelectionError::MissingDefaultDevice => {
                "GPU request requires a selected default CDI GPU device".to_string()
            },
            CdiGpuSelectionError::AllDevicesDefaultUnsupported => {
                "default GPU request resolved only to nvidia.com/gpu=all, which is not allowed on this platform; set driver_config.cdi_devices to [\"nvidia.com/gpu=all\"] explicitly to request all GPUs".to_string()
            },
        }
    }
}

} // verus!
