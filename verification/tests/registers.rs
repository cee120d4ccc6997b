use device_emu::blk_ramfs::RamfsDev;
use device_emu::guest_mem::{GuestMemory, GuestRam};
use device_emu::virtio_blk::{BlkRegFile, VirtBlkInner};
use device_emu::virtio_mmio::{
    VirtMmioRegs, VirtioDeviceType, VIRTIO_BLK_CONFIG_CAPACITY, VIRTIO_MAGIC, VIRTIO_MMIO_CONFIG,
    VIRTIO_MMIO_DEVICE_ID, VIRTIO_MMIO_GUEST_FEATURES, VIRTIO_MMIO_GUEST_FEATURES_SEL,
    VIRTIO_MMIO_GUEST_PAGE_SIZE, VIRTIO_MMIO_HOST_FEATURES, VIRTIO_MMIO_HOST_FEATURES_SEL,
    VIRTIO_MMIO_INTERRUPT_ACK, VIRTIO_MMIO_INTERRUPT_STATUS, VIRTIO_MMIO_MAGIC_VALUE,
    VIRTIO_MMIO_QUEUE_ALIGN, VIRTIO_MMIO_QUEUE_NOTIFY, VIRTIO_MMIO_QUEUE_NUM,
    VIRTIO_MMIO_QUEUE_NUM_MAX, VIRTIO_MMIO_QUEUE_PFN, VIRTIO_MMIO_QUEUE_READY,
    VIRTIO_MMIO_QUEUE_SEL, VIRTIO_MMIO_REGS_END, VIRTIO_MMIO_STATUS, VIRTIO_MMIO_VENDOR_ID,
    VIRTIO_MMIO_VERSION, VIRTIO_PAGE_SIZE, VIRTIO_QUEUE_NUM_MAX, VIRTIO_VENDOR,
    VIRTIO_VERSION_LEGACY,
};

fn fresh_regs() -> VirtMmioRegs {
    VirtMmioRegs {
        magic: 0x7472_6976,
        version: 1,
        device_id: 2,
        vendor_id: 0x8888,
        dev_feature: 0,
        dev_feature_sel: 0,
        drv_feature: 0,
        drv_feature_sel: 0,
        guest_page_size: 0x1000,
        q_sel: 0,
        q_num_max: 256,
        q_num: 0,
        q_align: 0x1000,
        q_pfn: 0,
        q_ready: 0,
        irt_stat: 0,
        irt_ack: 0,
        dev_stat: 0,
    }
}

#[test]
fn register_offsets() {
    assert_eq!(VIRTIO_MMIO_MAGIC_VALUE, 0x000);
    assert_eq!(VIRTIO_MMIO_VERSION, 0x004);
    assert_eq!(VIRTIO_MMIO_DEVICE_ID, 0x008);
    assert_eq!(VIRTIO_MMIO_VENDOR_ID, 0x00c);
    assert_eq!(VIRTIO_MMIO_HOST_FEATURES, 0x010);
    assert_eq!(VIRTIO_MMIO_HOST_FEATURES_SEL, 0x014);
    assert_eq!(VIRTIO_MMIO_GUEST_FEATURES, 0x020);
    assert_eq!(VIRTIO_MMIO_GUEST_FEATURES_SEL, 0x024);
    assert_eq!(VIRTIO_MMIO_GUEST_PAGE_SIZE, 0x028);
    assert_eq!(VIRTIO_MMIO_QUEUE_SEL, 0x030);
    assert_eq!(VIRTIO_MMIO_QUEUE_NUM_MAX, 0x034);
    assert_eq!(VIRTIO_MMIO_QUEUE_NUM, 0x038);
    assert_eq!(VIRTIO_MMIO_QUEUE_ALIGN, 0x03c);
    assert_eq!(VIRTIO_MMIO_QUEUE_PFN, 0x040);
    assert_eq!(VIRTIO_MMIO_QUEUE_READY, 0x044);
    assert_eq!(VIRTIO_MMIO_QUEUE_NOTIFY, 0x050);
    assert_eq!(VIRTIO_MMIO_INTERRUPT_STATUS, 0x060);
    assert_eq!(VIRTIO_MMIO_INTERRUPT_ACK, 0x064);
    assert_eq!(VIRTIO_MMIO_STATUS, 0x070);
    assert_eq!(VIRTIO_MMIO_CONFIG, 0x100);
    assert_eq!(VIRTIO_MMIO_REGS_END, 0x200);
    assert_eq!(VIRTIO_BLK_CONFIG_CAPACITY, 0);
    assert_eq!(VIRTIO_MAGIC, 0x7472_6976);
    assert_eq!(VIRTIO_VERSION_LEGACY, 1);
    assert_eq!(VIRTIO_VENDOR, 0x8888);
    assert_eq!(VIRTIO_QUEUE_NUM_MAX, 256);
    assert_eq!(VIRTIO_PAGE_SIZE, 0x1000);
}

#[test]
fn device_type_ids() {
    assert_eq!(VirtioDeviceType::Invalid.id(), 0);
    assert_eq!(VirtioDeviceType::Net.id(), 1);
    assert_eq!(VirtioDeviceType::Block.id(), 2);
}

#[test]
fn fresh_registers_of_a_block_device() {
    assert_eq!(VirtMmioRegs::new(VirtioDeviceType::Block), fresh_regs());
    assert_eq!(VirtMmioRegs::new(VirtioDeviceType::Net), VirtMmioRegs { device_id: 1, ..fresh_regs() });
    assert_eq!(
        VirtMmioRegs::new(VirtioDeviceType::Invalid),
        VirtMmioRegs { device_id: 0, ..fresh_regs() }
    );
    assert_eq!(BlkRegFile::new().registers(), fresh_regs());
}

#[test]
fn identity_registers_read_their_constants() {
    let blk = VirtBlkInner::new(RamfsDev::new(0x10_0000));
    assert_eq!(blk.magic(), 0x7472_6976);
    assert_eq!(blk.read(0x000), 0x7472_6976);
    assert_eq!(blk.read(0x004), 1);
    assert_eq!(blk.read(0x008), 2);
    assert_eq!(blk.read(0x00c), 0x8888);
    assert_eq!(blk.read(0x010), 0);
    assert_eq!(blk.read(0x034), 256);
    assert_eq!(blk.registers(), fresh_regs());
}

#[test]
fn capacity_reads_from_config_space() {
    let blk = VirtBlkInner::new(RamfsDev::new(0x10_0000));
    assert_eq!(blk.read(0x100), 2048);
    assert_eq!(blk.read(0x104), 0);
    assert_eq!(blk.read(0x108), 0);
    assert_eq!(blk.read(0x101), 0);
    assert_eq!(blk.read(0x1ff), 0);
    assert_eq!(blk.read(usize::MAX), 0);
    let small = VirtBlkInner::new(RamfsDev::new(1023));
    assert_eq!(small.read(0x100), 1);
    let regs = BlkRegFile::new();
    assert_eq!(regs.read(0x1_2345_6789, 0x100), 0x1_2345_6789);
    assert_eq!(regs.read(0x1_2345_6789, 0x104), 1);
    assert_eq!(regs.read(u64::MAX, 0x104), 0xffff_ffff);
}

#[test]
fn unmapped_offsets_read_zero() {
    let mut blk = VirtBlkInner::new(RamfsDev::new(0x10_0000));
    let mut mem = GuestRam::new(0, 16);
    for offset in [0x014usize, 0x020, 0x024, 0x028, 0x030, 0x038, 0x03c, 0x040, 0x050, 0x064] {
        assert_eq!(blk.write(&mut mem, offset, 0xdead_beef), 0);
    }
    for offset in [
        0x001usize, 0x002, 0x014, 0x018, 0x01c, 0x020, 0x024, 0x028, 0x02c, 0x030, 0x038, 0x03c,
        0x040, 0x048, 0x04c, 0x050, 0x054, 0x064, 0x068, 0x074, 0x080, 0x0fc,
    ] {
        assert_eq!(blk.read(offset), 0, "offset {:#x}", offset);
    }
}

#[test]
fn writes_store_into_their_fields() {
    let mut blk = VirtBlkInner::new(RamfsDev::new(0x10_0000));
    let mut mem = GuestRam::new(0, 16);
    assert_eq!(blk.write(&mut mem, 0x014, 0x11), 0);
    assert_eq!(blk.write(&mut mem, 0x020, 0x22), 0);
    assert_eq!(blk.write(&mut mem, 0x024, 0x33), 0);
    assert_eq!(blk.write(&mut mem, 0x028, 0x2000), 0);
    assert_eq!(blk.write(&mut mem, 0x030, 0x44), 0);
    assert_eq!(blk.write(&mut mem, 0x038, 128), 0);
    assert_eq!(blk.write(&mut mem, 0x03c, 64), 0);
    assert_eq!(blk.write(&mut mem, 0x040, 0x1234), 0);
    assert_eq!(blk.write(&mut mem, 0x044, 1), 0);
    assert_eq!(blk.write(&mut mem, 0x064, 0x55), 0);
    assert_eq!(blk.write(&mut mem, 0x070, 0x0f), 0);
    assert_eq!(
        blk.registers(),
        VirtMmioRegs {
            dev_feature_sel: 0x11,
            drv_feature: 0x22,
            drv_feature_sel: 0x33,
            guest_page_size: 0x2000,
            q_sel: 0x44,
            q_num: 128,
            q_align: 64,
            q_pfn: 0x1234,
            q_ready: 1,
            irt_ack: 0x55,
            dev_stat: 0x0f,
            ..fresh_regs()
        }
    );
    assert_eq!(blk.read(0x044), 1);
    assert_eq!(blk.read(0x070), 0x0f);
    assert_eq!(blk.read(0x060), 0);
    assert_eq!(mem.read(0, 16), Some(vec![0u8; 16]));
}

#[test]
fn writes_keep_the_low_32_bits() {
    let mut blk = VirtBlkInner::new(RamfsDev::new(512));
    let mut mem = GuestRam::new(0, 16);
    assert_eq!(blk.write(&mut mem, 0x070, 0x1_2345_6789), 0);
    assert_eq!(blk.read(0x070), 0x2345_6789);
    assert_eq!(blk.write(&mut mem, 0x070, u64::MAX), 0);
    assert_eq!(blk.read(0x070), 0xffff_ffff);
}

#[test]
fn writes_to_read_only_registers_are_ignored() {
    let mut blk = VirtBlkInner::new(RamfsDev::new(512));
    let mut mem = GuestRam::new(0, 16);
    for offset in [0x000usize, 0x004, 0x008, 0x00c, 0x010, 0x034, 0x060, 0x100, 0x104, 0x1fc, 0x077] {
        assert_eq!(blk.write(&mut mem, offset, 0xffff_ffff), 0);
    }
    assert_eq!(blk.registers(), fresh_regs());
    assert_eq!(blk.read(0x100), 1);
}

#[test]
fn notify_write_stores_nothing() {
    let mut blk = VirtBlkInner::new(RamfsDev::new(512));
    let mut mem = GuestRam::new(0, 16);
    assert_eq!(blk.write(&mut mem, 0x050, 0x77), 0);
    assert_eq!(blk.registers(), fresh_regs());
    let mut regs = BlkRegFile::new();
    regs.write(0x050, 0x77);
    assert_eq!(regs.registers(), fresh_regs());
    regs.write(0x038, 0x1_0000_0008);
    assert_eq!(regs.registers().q_num, 8);
}
