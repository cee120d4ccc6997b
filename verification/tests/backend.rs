use device_emu::blk_ramfs::{RamfsDev, RamfsDevInner};
use device_emu::virtio_blk::{BlkDev, BlkError, SECTOR_SIZE};

fn pattern(len: usize, seed: u8) -> Vec<u8> {
    (0..len).map(|i| (i as u8).wrapping_mul(3).wrapping_add(seed)).collect()
}

#[test]
fn ramfs_starts_zeroed() {
    let dev = RamfsDev::new(2048);
    let mut buf = vec![0xffu8; 2048];
    assert_eq!(dev.read(0, &mut buf), Ok(()));
    assert_eq!(buf, vec![0u8; 2048]);
    let _ = RamfsDevInner::new(16);
}

#[test]
fn ramfs_capacity_counts_whole_sectors() {
    assert_eq!(SECTOR_SIZE, 512);
    assert_eq!(RamfsDev::new(0).capacity(), 0);
    assert_eq!(RamfsDev::new(511).capacity(), 0);
    assert_eq!(RamfsDev::new(512).capacity(), 1);
    assert_eq!(RamfsDev::new(0x10_0000).capacity(), 2048);
    assert_eq!(RamfsDev::new(1025).capacity(), 2);
}

#[test]
fn ramfs_reads_back_what_was_written() {
    let mut dev = RamfsDev::new(8 * 512);
    let data = pattern(1024, 17);
    assert_eq!(dev.write(3, &data), Ok(()));
    let mut buf = vec![0u8; 1024];
    assert_eq!(dev.read(3, &mut buf), Ok(()));
    assert_eq!(buf, data);
}

#[test]
fn ramfs_write_touches_only_its_range() {
    let mut dev = RamfsDev::new(4 * 512);
    let data = pattern(100, 1);
    assert_eq!(dev.write(1, &data), Ok(()));
    let mut all = vec![0xeeu8; 4 * 512];
    assert_eq!(dev.read(0, &mut all), Ok(()));
    let mut expected = vec![0u8; 4 * 512];
    expected[512..612].copy_from_slice(&data);
    assert_eq!(all, expected);
}

#[test]
fn ramfs_read_of_part_of_a_sector() {
    let mut dev = RamfsDev::new(2 * 512);
    let data = pattern(512, 9);
    assert_eq!(dev.write(1, &data), Ok(()));
    let mut buf = vec![0u8; 10];
    assert_eq!(dev.read(1, &mut buf), Ok(()));
    assert_eq!(buf, data[..10].to_vec());
}

#[test]
fn ramfs_transfer_up_to_the_last_byte() {
    let mut dev = RamfsDev::new(1000);
    let data = pattern(488, 5);
    assert_eq!(dev.write(1, &data), Ok(()));
    let mut buf = vec![0u8; 488];
    assert_eq!(dev.read(1, &mut buf), Ok(()));
    assert_eq!(buf, data);
}

#[test]
fn ramfs_read_beyond_capacity_fails_and_leaves_the_buffer() {
    let dev = RamfsDev::new(4 * 512);
    let mut buf = vec![0xabu8; 513];
    assert_eq!(dev.read(3, &mut buf), Err(BlkError::OutOfRange));
    assert_eq!(buf, vec![0xabu8; 513]);
    let mut one = vec![0xabu8; 1];
    assert_eq!(dev.read(4, &mut one), Err(BlkError::OutOfRange));
    assert_eq!(dev.read(usize::MAX, &mut one), Err(BlkError::OutOfRange));
    assert_eq!(one, vec![0xabu8; 1]);
}

#[test]
fn ramfs_write_beyond_capacity_fails_and_changes_nothing() {
    let mut dev = RamfsDev::new(4 * 512);
    let before = pattern(4 * 512, 2);
    assert_eq!(dev.write(0, &before), Ok(()));
    assert_eq!(dev.write(3, &vec![0x55u8; 513]), Err(BlkError::OutOfRange));
    assert_eq!(dev.write(5, &[1u8]), Err(BlkError::OutOfRange));
    assert_eq!(dev.write(usize::MAX / 2, &[1u8]), Err(BlkError::OutOfRange));
    let mut all = vec![0u8; 4 * 512];
    assert_eq!(dev.read(0, &mut all), Ok(()));
    assert_eq!(all, before);
}

#[test]
fn ramfs_empty_transfer_at_the_end() {
    let mut dev = RamfsDev::new(1024);
    let mut empty: Vec<u8> = Vec::new();
    assert_eq!(dev.read(2, &mut empty), Ok(()));
    assert_eq!(dev.write(2, &[]), Ok(()));
    assert_eq!(dev.read(3, &mut empty), Err(BlkError::OutOfRange));
}
