//! The register file of the legacy virtio-mmio transport.

use vstd::prelude::*;

verus! {

pub const VIRTIO_MMIO_MAGIC_VALUE: usize = 0x000;

pub const VIRTIO_MMIO_VERSION: usize = 0x004;

pub const VIRTIO_MMIO_DEVICE_ID: usize = 0x008;

pub const VIRTIO_MMIO_VENDOR_ID: usize = 0x00c;

pub const VIRTIO_MMIO_HOST_FEATURES: usize = 0x010;

pub const VIRTIO_MMIO_HOST_FEATURES_SEL: usize = 0x014;

pub const VIRTIO_MMIO_GUEST_FEATURES: usize = 0x020;

pub const VIRTIO_MMIO_GUEST_FEATURES_SEL: usize = 0x024;

pub const VIRTIO_MMIO_GUEST_PAGE_SIZE: usize = 0x028;

pub const VIRTIO_MMIO_QUEUE_SEL: usize = 0x030;

pub const VIRTIO_MMIO_QUEUE_NUM_MAX: usize = 0x034;

pub const VIRTIO_MMIO_QUEUE_NUM: usize = 0x038;

pub const VIRTIO_MMIO_QUEUE_ALIGN: usize = 0x03c;

pub const VIRTIO_MMIO_QUEUE_PFN: usize = 0x040;

pub const VIRTIO_MMIO_QUEUE_READY: usize = 0x044;

pub const VIRTIO_MMIO_QUEUE_NOTIFY: usize = 0x050;

pub const VIRTIO_MMIO_INTERRUPT_STATUS: usize = 0x060;

pub const VIRTIO_MMIO_INTERRUPT_ACK: usize = 0x064;

pub const VIRTIO_MMIO_STATUS: usize = 0x070;

/// Start of the device-specific configuration.
pub const VIRTIO_MMIO_CONFIG: usize = 0x100;

/// End of the register space.
pub const VIRTIO_MMIO_REGS_END: usize = 0x200;

/// Offset of the capacity field within a block device's configuration.
pub const VIRTIO_BLK_CONFIG_CAPACITY: usize = 0x00;

/// What the magic register reads: "virt", little-endian.
pub const VIRTIO_MAGIC: u32 = 0x7472_6976;

/// What the version register of the legacy transport reads.
pub const VIRTIO_VERSION_LEGACY: u32 = 0x1;

/// What the vendor register reads.
pub const VIRTIO_VENDOR: u32 = 0x8888;

/// The largest queue the device offers.
pub const VIRTIO_QUEUE_NUM_MAX: u32 = 256;

/// The page size and queue alignment a device starts with.
pub const VIRTIO_PAGE_SIZE: u32 = 0x1000;

/// The kinds of device the transport can carry.
#[derive(Debug, Copy, Clone, PartialEq, Eq, Structural)]
pub enum VirtioDeviceType {
    /// No device: the reserved id zero.
    Invalid,
    Net,
    Block,
}

impl VirtioDeviceType {
    /// What the device-id register reads for this kind.
    pub open spec fn spec_id(self) -> u32 {
        match self {
            VirtioDeviceType::Invalid => 0,
            VirtioDeviceType::Net => 1,
            VirtioDeviceType::Block => 2,
        }
    }

    /// What the device-id register reads for this kind.
    pub fn id(self) -> (r: u32)
        ensures
            r == self.spec_id(),
    {
        match self {
            VirtioDeviceType::Invalid => 0,
            VirtioDeviceType::Net => 1,
            VirtioDeviceType::Block => 2,
        }
    }
}

/// The 32-bit registers of one device.
#[derive(Debug, Copy, Clone, PartialEq, Eq, Structural)]
pub struct VirtMmioRegs {
    pub magic: u32,
    pub version: u32,
    pub device_id: u32,
    pub vendor_id: u32,
    pub dev_feature: u32,
    pub dev_feature_sel: u32,
    pub drv_feature: u32,
    pub drv_feature_sel: u32,
    pub guest_page_size: u32,
    pub q_sel: u32,
    pub q_num_max: u32,
    pub q_num: u32,
    pub q_align: u32,
    pub q_pfn: u32,
    pub q_ready: u32,
    pub irt_stat: u32,
    pub irt_ack: u32,
    pub dev_stat: u32,
}

impl VirtMmioRegs {
    /// The registers of a device of kind `id` before the driver has touched
    /// them.
    pub open spec fn initial(id: VirtioDeviceType) -> VirtMmioRegs {
        VirtMmioRegs {
            magic: VIRTIO_MAGIC,
            version: VIRTIO_VERSION_LEGACY,
            device_id: id.spec_id(),
            vendor_id: VIRTIO_VENDOR,
            dev_feature: 0,
            dev_feature_sel: 0,
            drv_feature: 0,
            drv_feature_sel: 0,
            guest_page_size: VIRTIO_PAGE_SIZE,
            q_sel: 0,
            q_num_max: VIRTIO_QUEUE_NUM_MAX,
            q_num: 0,
            q_align: VIRTIO_PAGE_SIZE,
            q_pfn: 0,
            q_ready: 0,
            irt_stat: 0,
            irt_ack: 0,
            dev_stat: 0,
        }
    }

    /// Whether the registers that a driver cannot write still hold what a
    /// device of kind `id` starts with.
    pub open spec fn identifies(self, id: VirtioDeviceType) -> bool {
        &&& self.magic == VIRTIO_MAGIC
        &&& self.version == VIRTIO_VERSION_LEGACY
        &&& self.device_id == id.spec_id()
        &&& self.vendor_id == VIRTIO_VENDOR
        &&& self.q_num_max == VIRTIO_QUEUE_NUM_MAX
    }

    /// The registers of a fresh device of kind `id`.
    pub fn new(id: VirtioDeviceType) -> (r: Self)
        ensures
            r == Self::initial(id),
    {
        Self {
            magic: VIRTIO_MAGIC,
            version: VIRTIO_VERSION_LEGACY,
            device_id: id.id(),
            vendor_id: VIRTIO_VENDOR,
            dev_feature: 0,
            dev_feature_sel: 0,
            drv_feature: 0,
            drv_feature_sel: 0,
            guest_page_size: VIRTIO_PAGE_SIZE,
            q_sel: 0,
            q_num_max: VIRTIO_QUEUE_NUM_MAX,
            q_num: 0,
            q_align: VIRTIO_PAGE_SIZE,
            q_pfn: 0,
            q_ready: 0,
            irt_stat: 0,
            irt_ack: 0,
            dev_stat: 0,
        }
    }
}

} // verus!
