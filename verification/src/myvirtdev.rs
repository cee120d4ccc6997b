//! A scratch register behind one I/O port: it reads what was written last.

use vstd::prelude::*;
use core::ops::Range;
use crate::device::PortIoDevice;
use crate::sync::{guard_mut, mutex_lock, mutex_new};

verus! {

/// What the lock of the scratch device guards: the value written last.
pub struct MyVirtDeviceInner {
    latest_data: u32,
}

impl View for MyVirtDeviceInner {
    type V = u32;

    closed spec fn view(&self) -> u32 {
        self.latest_data
    }
}

impl MyVirtDeviceInner {
    /// A register that holds zero.
    pub fn new() -> (r: Self)
        ensures
            r@ == 0,
    {
        Self { latest_data: 0 }
    }

    /// The value written last.
    pub fn load(&self) -> (r: u32)
        ensures
            r == self@,
    {
        self.latest_data
    }

    /// Keeps `value` for the reads that follow.
    pub fn store(&mut self, value: u32)
        ensures
            final(self)@ == value,
    {
        self.latest_data = value;
    }
}

/// The scratch device: one port, one register behind a lock.
pub struct MyVirtDevice {
    port_base: u16,
    inner: spin::Mutex<MyVirtDeviceInner>,
}

impl MyVirtDevice {
    #[verifier::type_invariant]
    spec fn inv(self) -> bool {
        self.port_base < u16::MAX
    }

    /// The I/O port at which the device answers.
    pub closed spec fn base(&self) -> int {
        self.port_base as int
    }

    /// A scratch device at `port_base`.
    pub fn new(port_base: u16) -> (r: Self)
        requires
            port_base < u16::MAX,
        ensures
            r.base() == port_base,
    {
        Self { port_base, inner: mutex_new(MyVirtDeviceInner::new()) }
    }
}

impl PortIoDevice for MyVirtDevice {
    open spec fn ports(&self) -> (int, int) {
        (self.base(), self.base() + 1)
    }

    fn port_range(&self) -> (r: Range<u16>) {
        proof {
            use_type_invariant(self);
        }
        self.port_base..(self.port_base + 1)
    }

    /// The value that some write stored last, whichever port and size the
    /// guest names.
    fn read(&self, _port: u16, _access_size: u8) -> u32 {
        let mut guard = mutex_lock(&self.inner);
        let inner: &mut MyVirtDeviceInner = guard_mut(&mut guard);
        inner.load()
    }

    /// Stores `value`, whichever port and size the guest names.
    fn write(&self, _port: u16, _access_size: u8, value: u32) {
        let mut guard = mutex_lock(&self.inner);
        let inner: &mut MyVirtDeviceInner = guard_mut(&mut guard);
        inner.store(value);
    }
}

} // verus!
