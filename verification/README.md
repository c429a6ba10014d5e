# openshell_gpu

Selection of NVIDIA GPUs for local container drivers, by CDI (Container Device Interface)
identifiers, with its behaviour stated in contracts and proved by Verus.

- `CdiGpuInventory` normalizes the identifiers that a container runtime reports: trimmed, NVIDIA
  GPUs only, sorted, each once. Its default device family holds the numbered devices in numeric
  order, else the devices with other names, else `nvidia.com/gpu=all` where that is allowed.
- `CdiGpuRoundRobin` is a cursor that threads can share; each default request takes the next
  device of the family. `default_device_turn` takes a turn with a cursor that has one owner, and
  its contract says where the cursor moves. Both are proved to select the same device at the same
  cursor; that whole runs of them agree is tested (`tests/selection.rs`), because the contents of
  the shared atomic are outside the contracts.
- `cdi_gpu_device_ids` and `cdi_gpu_device_ids_or_all` resolve a GPU request into the identifiers
  that a container gets.

Layout:

- `src/text.rs`: white space, order, prefixes and decimal numbers over characters.
- `src/byte_order.rs`: the order of texts is that of their UTF-8 bytes.
- `src/device_id.rs`: the form of NVIDIA GPU identifiers.
- `src/inventory.rs`, `src/family.rs`: the inventory and its default family.
- `src/round_robin.rs`: selection at a cursor, and the laws of the rotation.
- `src/request.rs`: requests.
- `src/error.rs`, `src/config.rs`: errors, and the identifier for every GPU.
- `app/`: `Display` and `Error` for the selection error, and the inventory from any iterator.

Proof functions whose names start with `law_` state what holds of the library as a whole.
