use device_emu::blk_ramfs::RamfsDev;
use device_emu::device::{EmuContext, MmioAccess, MmioDevice, PortIoDevice, VirtDeviceList};
use device_emu::guest_mem::{GuestMemory, GuestRam};
use device_emu::myvirtdev::{MyVirtDevice, MyVirtDeviceInner};
use device_emu::virtio_blk::{BlkDev, VirtBlk, VIRT_BLK_RAM_SIZE};
use device_emu::virtio_queue::{VringUsed, VringUsedElem};

fn dev_put_desc(mem: &mut GuestRam, index: u64, addr: u64, len: u32, flags: u16, next: u16) {
    let mut b: Vec<u8> = Vec::new();
    b.extend_from_slice(&addr.to_le_bytes());
    b.extend_from_slice(&len.to_le_bytes());
    b.extend_from_slice(&flags.to_le_bytes());
    b.extend_from_slice(&next.to_le_bytes());
    assert!(mem.write(0x1000 + 16 * index, &b));
}

fn dev_put_header(mem: &mut GuestRam, addr: u64, req_type: u32, sector: u64) {
    let mut b: Vec<u8> = Vec::new();
    b.extend_from_slice(&req_type.to_le_bytes());
    b.extend_from_slice(&0u32.to_le_bytes());
    b.extend_from_slice(&sector.to_le_bytes());
    assert!(mem.write(addr, &b));
}

fn dev_configure<B: BlkDev>(blk: &VirtBlk<B>, mem: &mut GuestRam) {
    assert_eq!(blk.write(mem, 0x028, 0x1000), 0);
    assert_eq!(blk.write(mem, 0x038, 4), 0);
    assert_eq!(blk.write(mem, 0x03c, 0x1000), 0);
    assert_eq!(blk.write(mem, 0x040, 1), 0);
}

#[test]
fn emu_context_is_a_plain_record() {
    let ctx = EmuContext { address: 0xfef0_0050, width: 4, write: true, reg: 3, reg_width: 8 };
    let copy = ctx;
    assert_eq!(ctx, copy);
    assert_eq!(copy.address, 0xfef0_0050);
    assert_eq!(copy.width, 4);
    assert!(copy.write);
    assert_eq!(copy.reg, 3);
    assert_eq!(copy.reg_width, 8);
}

#[test]
fn scratch_register_holds_the_last_value() {
    let mut reg = MyVirtDeviceInner::new();
    assert_eq!(reg.load(), 0);
    reg.store(0xdead_beef);
    assert_eq!(reg.load(), 0xdead_beef);
    reg.store(7);
    assert_eq!(reg.load(), 7);
}

#[test]
fn scratch_device_has_one_port() {
    let dev = MyVirtDevice::new(0x2233);
    assert_eq!(dev.port_range(), 0x2233..0x2234);
    let last = MyVirtDevice::new(0xfffe);
    assert_eq!(last.port_range(), 0xfffe..0xffff);
}

#[test]
fn scratch_device_reads_what_was_written() {
    let dev = MyVirtDevice::new(0x2233);
    assert_eq!(dev.read(0x2233, 4), 0);
    dev.write(0x2233, 4, 0x1234_5678);
    assert_eq!(dev.read(0x2233, 4), 0x1234_5678);
    assert_eq!(dev.read(0x2233, 1), 0x1234_5678);
    dev.write(0x2233, 1, 9);
    assert_eq!(dev.read(0x2233, 4), 9);
}

#[test]
fn block_device_range() {
    let blk = VirtBlk::new(0xfef0_0000, 0x1000);
    assert_eq!(blk.mmio_range(), 0xfef0_0000..0xfef0_1000);
    assert_eq!(MmioDevice::mmio_range(&blk), 0xfef0_0000..0xfef0_1000);
    let empty = VirtBlk::with_backend(0x10, 0, RamfsDev::new(512));
    assert_eq!(empty.mmio_range(), 0x10..0x10);
    let top = VirtBlk::with_backend(usize::MAX - 0x100, 0x100, RamfsDev::new(512));
    assert_eq!(top.mmio_range(), usize::MAX - 0x100..usize::MAX);
}

#[test]
fn block_device_reads_identity_under_the_lock() {
    let blk = VirtBlk::new(0xfef0_0000, 0x1000);
    assert_eq!(blk.read(0x000), 0x7472_6976);
    assert_eq!(blk.read(0x004), 1);
    assert_eq!(blk.read(0x008), 2);
    assert_eq!(blk.read(0x00c), 0x8888);
    assert_eq!(blk.read(0x034), 256);
    assert_eq!(VIRT_BLK_RAM_SIZE, 0x10_0000);
    assert_eq!(blk.read(0x100), 2048);
    assert_eq!(blk.read(0x018), 0);
}

#[test]
fn block_device_keeps_registers_between_accesses() {
    let blk = VirtBlk::new(0xfef0_0000, 0x1000);
    let mut mem = GuestRam::new(0, 16);
    assert_eq!(blk.read(0x070), 0);
    assert_eq!(blk.write(&mut mem, 0x070, 0x0f), 0);
    assert_eq!(blk.read(0x070), 0x0f);
    assert_eq!(blk.write(&mut mem, 0x044, 1), 0);
    assert_eq!(blk.read(0x044), 1);
    assert_eq!(blk.read(0x070), 0x0f);
    assert_eq!(mem.read(0, 16), Some(vec![0u8; 16]));
}

#[test]
fn block_device_serves_a_write_then_a_read_through_access() {
    let blk = VirtBlk::new(0xfef0_0000, 0x1000);
    let mut mem = GuestRam::new(0, 0x10000);
    dev_configure(&blk, &mut mem);
    let data: Vec<u8> = (0..512u32).map(|i| (i * 7 % 256) as u8).collect();
    assert!(mem.write(0x4000, &data));
    dev_put_header(&mut mem, 0x3000, 1, 5);
    dev_put_desc(&mut mem, 0, 0x3000, 16, 1, 1);
    dev_put_desc(&mut mem, 1, 0x4000, 512, 1, 2);
    dev_put_desc(&mut mem, 2, 0x3800, 1, 2, 0);
    assert!(mem.write(0x3800, &[0xff]));
    assert!(mem.write(0x1044, &0u16.to_le_bytes()));
    assert!(mem.write(0x1042, &1u16.to_le_bytes()));
    assert_eq!(
        blk.access(&mut mem, 0x050, true, 0),
        MmioAccess { value: 0, completed: 1 }
    );
    assert_eq!(mem.read(0x3800, 1), Some(vec![0]));

    dev_put_header(&mut mem, 0x3000, 0, 5);
    dev_put_desc(&mut mem, 1, 0x5000, 512, 3, 2);
    assert!(mem.write(0x3800, &[0xff]));
    assert!(mem.write(0x1046, &0u16.to_le_bytes()));
    assert!(mem.write(0x1042, &2u16.to_le_bytes()));
    assert_eq!(blk.write(&mut mem, 0x050, 0), 1);
    assert_eq!(mem.read(0x5000, 512), Some(data));
    assert_eq!(mem.read(0x3800, 1), Some(vec![0]));
    let used = VringUsed { addr: 0x2000, num: 4 };
    assert_eq!(used.idx(&mem), Some(2));
    assert_eq!(used.get_ring_value(&mem, 0), Some(VringUsedElem { id: 0, len: 0 }));
    assert_eq!(used.get_ring_value(&mem, 1), Some(VringUsedElem { id: 0, len: 512 }));
    assert_eq!(blk.write(&mut mem, 0x050, 0), 0);
}

#[test]
fn access_reads_and_writes_registers() {
    let blk = VirtBlk::new(0xfef0_0000, 0x1000);
    let mut mem = GuestRam::new(0, 16);
    assert_eq!(
        blk.access(&mut mem, 0x000, false, 0xffff),
        MmioAccess { value: 0x7472_6976, completed: 0 }
    );
    assert_eq!(blk.access(&mut mem, 0x070, true, 3), MmioAccess { value: 0, completed: 0 });
    assert_eq!(blk.access(&mut mem, 0x070, false, 0), MmioAccess { value: 3, completed: 0 });
    assert_eq!(blk.access(&mut mem, 0x050, false, 0), MmioAccess { value: 0, completed: 0 });
}

#[test]
fn device_list_finds_the_first_device_that_has_the_port() {
    let list: VirtDeviceList<MyVirtDevice, VirtBlk<RamfsDev>> = VirtDeviceList::new(
        vec![MyVirtDevice::new(0x20), MyVirtDevice::new(0x2233), MyVirtDevice::new(0x20)],
        Vec::new(),
    );
    let first = list.find_port_io_device(0x20).unwrap();
    first.write(0x20, 1, 42);
    assert_eq!(list.find_port_io_device(0x20).unwrap().read(0x20, 1), 42);
    assert_eq!(list.find_port_io_device(0x2233).unwrap().port_range(), 0x2233..0x2234);
    assert_eq!(list.find_port_io_device(0x2233).unwrap().read(0x2233, 1), 0);
    assert!(list.find_port_io_device(0x21).is_none());
    assert!(list.find_port_io_device(0x2234).is_none());
    assert!(list.find_port_io_device(0).is_none());
    assert!(list.find_mmio_device(0x20).is_none());
}

#[test]
fn device_list_finds_the_device_that_has_the_address() {
    let list: VirtDeviceList<MyVirtDevice, VirtBlk<RamfsDev>> = VirtDeviceList::new(
        Vec::new(),
        vec![
            VirtBlk::with_backend(0xfef0_0000, 0x1000, RamfsDev::new(512)),
            VirtBlk::with_backend(0xfef0_1000, 0x1000, RamfsDev::new(1024)),
            VirtBlk::with_backend(0xfef0_0800, 0x1000, RamfsDev::new(2048)),
        ],
    );
    assert_eq!(list.find_mmio_device(0xfef0_0000).unwrap().read(0x100), 1);
    assert_eq!(list.find_mmio_device(0xfef0_0fff).unwrap().read(0x100), 1);
    assert_eq!(list.find_mmio_device(0xfef0_1000).unwrap().read(0x100), 2);
    assert_eq!(list.find_mmio_device(0xfef0_1800).unwrap().read(0x100), 2);
    assert_eq!(list.find_mmio_device(0xfef0_1fff).unwrap().mmio_range(), 0xfef0_1000..0xfef0_2000);
    assert!(list.find_mmio_device(0xfeef_ffff).is_none());
    assert!(list.find_mmio_device(0xfef0_2000).is_none());
    assert!(list.find_port_io_device(0x3f8).is_none());
}

#[test]
fn empty_device_list_finds_nothing() {
    let list: VirtDeviceList<MyVirtDevice, VirtBlk<RamfsDev>> =
        VirtDeviceList::new(Vec::new(), Vec::new());
    assert!(list.find_port_io_device(0x2233).is_none());
    assert!(list.find_mmio_device(0xfef0_0000).is_none());
}
