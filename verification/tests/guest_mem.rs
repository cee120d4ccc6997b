use device_emu::guest_mem::{load_u16, store_u16, GuestMemory, GuestRam};

#[test]
fn guest_ram_starts_zeroed() {
    let ram = GuestRam::new(0x1000, 64);
    assert_eq!(ram.base(), 0x1000);
    assert_eq!(ram.size(), 64);
    assert_eq!(ram.read(0x1000, 64), Some(vec![0u8; 64]));
}

#[test]
fn guest_ram_reads_what_was_written() {
    let mut ram = GuestRam::new(0x1000, 64);
    assert!(ram.write(0x1010, &[1, 2, 3, 4]));
    assert_eq!(ram.read(0x1010, 4), Some(vec![1, 2, 3, 4]));
    assert_eq!(ram.read(0x100e, 8), Some(vec![0, 0, 1, 2, 3, 4, 0, 0]));
    assert!(ram.write(0x103f, &[9]));
    assert_eq!(ram.read(0x103f, 1), Some(vec![9]));
}

#[test]
fn guest_ram_refuses_ranges_that_leave_it() {
    let mut ram = GuestRam::new(0x1000, 64);
    assert_eq!(ram.read(0xfff, 2), None);
    assert_eq!(ram.read(0x103f, 2), None);
    assert_eq!(ram.read(0x1040, 1), None);
    assert_eq!(ram.read(0, 1), None);
    assert_eq!(ram.read(u64::MAX, 2), None);
    assert_eq!(ram.read(0x1000, 65), None);
    assert!(!ram.write(0x103e, &[1, 2, 3]));
    assert!(!ram.write(0xfff, &[1]));
    assert_eq!(ram.read(0x1000, 64), Some(vec![0u8; 64]));
}

#[test]
fn guest_ram_empty_range_is_mapped_anywhere() {
    let mut ram = GuestRam::new(0x1000, 64);
    assert_eq!(ram.read(0, 0), Some(Vec::new()));
    assert_eq!(ram.read(u64::MAX, 0), Some(Vec::new()));
    assert!(ram.write(0x5000, &[]));
}

#[test]
fn guest_ram_at_the_top_of_the_address_space() {
    let mut ram = GuestRam::new(u64::MAX - 3, 8);
    assert!(ram.write(u64::MAX - 3, &[1, 2, 3, 4]));
    assert_eq!(ram.read(u64::MAX - 3, 4), Some(vec![1, 2, 3, 4]));
    assert_eq!(ram.read(u64::MAX - 3, 5), None);
    assert_eq!(ram.read(u64::MAX, 1), Some(vec![4]));
}

#[test]
fn loads_and_stores_u16() {
    let mut ram = GuestRam::new(0x100, 16);
    assert!(store_u16(&mut ram, 0x100, 4, 0xbeef));
    assert_eq!(ram.read(0x104, 2), Some(vec![0xef, 0xbe]));
    assert_eq!(load_u16(&ram, 0x100, 4), Some(0xbeef));
    assert_eq!(load_u16(&ram, 0x102, 2), Some(0xbeef));
    assert_eq!(load_u16(&ram, 0x100, 15), None);
    assert_eq!(load_u16(&ram, u64::MAX, 2), None);
    assert!(!store_u16(&mut ram, 0x100, 15, 1));
    assert!(!store_u16(&mut ram, u64::MAX, 1, 1));
    assert_eq!(ram.read(0x10e, 2), Some(vec![0, 0]));
}
