//! Shared GPU request helpers.

pub mod byte_order;
pub mod config;
pub mod device_id;
pub mod error;
pub mod family;
pub mod inventory;
pub mod request;
pub mod round_robin;
pub mod text;

pub use config::CDI_GPU_DEVICE_ALL;
pub use error::CdiGpuSelectionError;
pub use inventory::CdiGpuInventory;
pub use request::{cdi_gpu_device_ids, cdi_gpu_device_ids_or_all};
pub use round_robin::{default_device_turn, CdiGpuRoundRobin};
