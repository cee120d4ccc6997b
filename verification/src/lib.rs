//! Emulation of a legacy virtio-mmio block device: queue layout, ring views
//! over guest memory, the request dispatcher and the register file.

pub mod error;
pub mod wire;
pub mod guest_mem;
pub mod virtio_queue;
pub mod virtio_mmio;
pub mod virtio_blk;
pub mod blk_ramfs;
pub mod sync;
pub mod device;
pub mod myvirtdev;
