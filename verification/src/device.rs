//! What the emulated devices have in common, and the list through which a
//! trapped access finds its device.

use vstd::prelude::*;
use core::ops::Range;
use crate::guest_mem::GuestMemory;

verus! {

/// One trapped access of the guest, as the trap describes it.
#[derive(Debug, Copy, Clone, PartialEq, Eq, Structural)]
pub struct EmuContext {
    /// The guest-physical address that was accessed.
    pub address: usize,
    /// Bytes of the access.
    pub width: usize,
    /// Whether the guest wrote.
    pub write: bool,
    /// The guest register that holds, or receives, the value.
    pub reg: usize,
    /// Bytes of that register.
    pub reg_width: usize,
}

/// What an access to a memory-mapped device yields.
#[derive(Debug, Copy, Clone, PartialEq, Eq, Structural)]
pub struct MmioAccess {
    /// What a read yields; zero for a write.
    pub value: u64,
    /// How many requests a write had the device hand back to the driver,
    /// for whoever signals the driver.
    pub completed: usize,
}

/// A device behind a range of I/O ports.
pub trait PortIoDevice {
    /// The first port of the device and the first behind it.
    spec fn ports(&self) -> (int, int);

    /// The ports of the device.
    fn port_range(&self) -> (r: Range<u16>)
        ensures
            r.start == self.ports().0,
            r.end == self.ports().1,
    ;

    /// A guest's read of `access_size` bytes from `port`.
    fn read(&self, port: u16, access_size: u8) -> u32;

    /// A guest's write of `access_size` bytes of `value` to `port`.
    fn write(&self, port: u16, access_size: u8, value: u32);
}

/// A device behind a range of guest-physical addresses.
pub trait MmioDevice {
    /// The first address of the device and the first behind it.
    spec fn mmio(&self) -> (int, int);

    /// The addresses of the device.
    fn mmio_range(&self) -> (r: Range<usize>)
        ensures
            r.start == self.mmio().0,
            r.end == self.mmio().1,
    ;

    /// A guest's access at `offset` bytes from the device's first address:
    /// a write of `value` or a read. The device reaches guest memory
    /// through `mem`.
    fn access<M: GuestMemory>(
        &self,
        mem: &mut M,
        offset: usize,
        write: bool,
        value: u64,
    ) -> MmioAccess;
}

/// Whether `port` is one of the device's ports.
pub open spec fn has_port<P: PortIoDevice>(dev: P, port: int) -> bool {
    dev.ports().0 <= port < dev.ports().1
}

/// Whether `address` is one of the device's addresses.
pub open spec fn has_address<D: MmioDevice>(dev: D, address: int) -> bool {
    dev.mmio().0 <= address < dev.mmio().1
}

/// The devices of one virtual machine, made once and then only searched.
pub struct VirtDeviceList<P: PortIoDevice, D: MmioDevice> {
    port_io_devices: Vec<P>,
    mmio_devices: Vec<D>,
}

impl<P: PortIoDevice, D: MmioDevice> VirtDeviceList<P, D> {
    /// The devices behind ports, in the order in which they are searched.
    pub closed spec fn port_io(&self) -> Seq<P> {
        self.port_io_devices@
    }

    /// The devices behind addresses, in the order in which they are
    /// searched.
    pub closed spec fn mmio(&self) -> Seq<D> {
        self.mmio_devices@
    }

    /// The list of these devices.
    pub fn new(port_io_devices: Vec<P>, mmio_devices: Vec<D>) -> (r: Self)
        ensures
            r.port_io() == port_io_devices@,
            r.mmio() == mmio_devices@,
    {
        Self { port_io_devices, mmio_devices }
    }

    /// The first device of the list that has `port`.
    pub fn find_port_io_device(&self, port: u16) -> (r: Option<&P>)
        ensures
            match r {
                Some(dev) => exists|i: int|
                    {
                        &&& 0 <= i < self.port_io().len()
                        &&& #[trigger] self.port_io()[i] == *dev
                        &&& has_port(self.port_io()[i], port as int)
                        &&& forall|j: int| 0 <= j < i ==> !has_port(#[trigger] self.port_io()[j], port as int)
                    },
                None => forall|i: int|
                    0 <= i < self.port_io().len() ==> !has_port(#[trigger] self.port_io()[i], port as int),
            },
    {
        let n: usize = self.port_io_devices.len();
        let mut i: usize = 0;
        while i < n
            invariant
                i <= n,
                n == self.port_io().len(),
                forall|j: int| 0 <= j < i ==> !has_port(#[trigger] self.port_io()[j], port as int),
            decreases n - i,
        {
            let range: Range<u16> = self.port_io_devices[i].port_range();
            if range.start <= port && port < range.end {
                assert(self.port_io()[i as int] == self.port_io_devices[i as int]);
                return Some(&self.port_io_devices[i]);
            }
            i = i + 1;
        }
        None
    }

    /// The first device of the list that has `address`.
    pub fn find_mmio_device(&self, address: usize) -> (r: Option<&D>)
        ensures
            match r {
                Some(dev) => exists|i: int|
                    {
                        &&& 0 <= i < self.mmio().len()
                        &&& #[trigger] self.mmio()[i] == *dev
                        &&& has_address(self.mmio()[i], address as int)
                        &&& forall|j: int| 0 <= j < i ==> !has_address(#[trigger] self.mmio()[j], address as int)
                    },
                None => forall|i: int|
                    0 <= i < self.mmio().len() ==> !has_address(#[trigger] self.mmio()[i], address as int),
            },
    {
        let n: usize = self.mmio_devices.len();
        let mut i: usize = 0;
        while i < n
            invariant
                i <= n,
                n == self.mmio().len(),
                forall|j: int| 0 <= j < i ==> !has_address(#[trigger] self.mmio()[j], address as int),
            decreases n - i,
        {
            let range: Range<usize> = self.mmio_devices[i].mmio_range();
            if range.start <= address && address < range.end {
                assert(self.mmio()[i as int] == self.mmio_devices[i as int]);
                return Some(&self.mmio_devices[i]);
            }
            i = i + 1;
        }
        None
    }
}

} // verus!
