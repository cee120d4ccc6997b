use device_emu::error::ConfigError;
use device_emu::virtio_queue::{is_power_of_two, queue_align_up, VirtQueueLayout};

#[test]
fn align_up_rounds_to_next_multiple() {
    assert_eq!(queue_align_up(0, 4096), Some(0));
    assert_eq!(queue_align_up(1, 4096), Some(4096));
    assert_eq!(queue_align_up(78, 4096), Some(4096));
    assert_eq!(queue_align_up(4097, 4096), Some(8192));
    assert_eq!(queue_align_up(150, 64), Some(192));
    assert_eq!(queue_align_up(10, 3), Some(12));
}

#[test]
fn align_up_keeps_a_multiple() {
    assert_eq!(queue_align_up(4096, 4096), Some(4096));
    assert_eq!(queue_align_up(24, 8), Some(24));
    assert_eq!(queue_align_up(7, 1), Some(7));
}

#[test]
fn align_up_has_no_result_for_zero_alignment() {
    assert_eq!(queue_align_up(100, 0), None);
}

#[test]
fn align_up_has_no_result_beyond_usize() {
    assert_eq!(queue_align_up(usize::MAX, 4096), None);
    assert_eq!(queue_align_up(usize::MAX, 1), Some(usize::MAX));
}

#[test]
fn power_of_two_check() {
    assert!(!is_power_of_two(0));
    assert!(is_power_of_two(1));
    assert!(is_power_of_two(2));
    assert!(!is_power_of_two(3));
    assert!(is_power_of_two(256));
    assert!(!is_power_of_two(255));
    assert!(is_power_of_two(0x8000));
    assert!(!is_power_of_two(0xffff));
}

#[test]
fn layout_of_four_entries_page_aligned() {
    let layout = VirtQueueLayout::new(4, 4096).unwrap();
    assert_eq!(layout.get_avail_offset(), 64);
    assert_eq!(layout.get_used_offset(), 4096);
    assert_eq!(layout.get_size(), 8192);
}

#[test]
fn layout_of_256_entries_page_aligned() {
    let layout = VirtQueueLayout::new(256, 4096).unwrap();
    assert_eq!(layout.get_avail_offset(), 16 * 256);
    assert_eq!(layout.get_used_offset(), 8192);
    assert_eq!(layout.get_size(), 12288);
}

#[test]
fn layout_of_eight_entries_aligned_to_64() {
    let layout = VirtQueueLayout::new(8, 64).unwrap();
    assert_eq!(layout.get_avail_offset(), 128);
    assert_eq!(layout.get_used_offset(), 192);
    assert_eq!(layout.get_size(), 320);
}

#[test]
fn layout_where_the_rings_end_on_the_alignment() {
    let layout = VirtQueueLayout::new(1, 8).unwrap();
    assert_eq!(layout.get_avail_offset(), 16);
    assert_eq!(layout.get_used_offset(), 24);
    assert_eq!(layout.get_size(), 40);
}

#[test]
fn layout_regions_do_not_overlap_for_every_power_of_two() {
    let aligns: [u32; 7] = [1, 2, 3, 8, 64, 4096, 0x10000];
    let mut shift: u32 = 0;
    while shift < 16 {
        let n: u16 = 1u16 << shift;
        for align in aligns {
            let layout = VirtQueueLayout::new(n, align).unwrap();
            let n = n as usize;
            let align = align as usize;
            assert_eq!(layout.get_avail_offset(), 16 * n);
            assert_eq!(layout.get_used_offset() % align, 0);
            assert_eq!(layout.get_size() % align, 0);
            assert!(layout.get_used_offset() >= layout.get_avail_offset() + 2 * (3 + n));
            assert!(layout.get_used_offset() < layout.get_avail_offset() + 2 * (3 + n) + align);
            assert!(layout.get_size() >= layout.get_used_offset() + 6 + 8 * n);
            assert!(layout.get_size() < layout.get_used_offset() + 6 + 8 * n + align);
        }
        shift += 1;
    }
}

#[test]
fn layout_rejects_queue_size_that_is_no_power_of_two() {
    assert_eq!(VirtQueueLayout::new(3, 4096).err(), Some(ConfigError::QueueSizeNotPowerOfTwo));
    assert_eq!(VirtQueueLayout::new(0, 4096).err(), Some(ConfigError::QueueSizeNotPowerOfTwo));
    assert_eq!(VirtQueueLayout::new(255, 4096).err(), Some(ConfigError::QueueSizeNotPowerOfTwo));
    assert_eq!(VirtQueueLayout::new(6, 0).err(), Some(ConfigError::QueueSizeNotPowerOfTwo));
}

#[test]
fn layout_rejects_zero_alignment() {
    assert_eq!(VirtQueueLayout::new(4, 0).err(), Some(ConfigError::AlignmentOutOfRange));
}
