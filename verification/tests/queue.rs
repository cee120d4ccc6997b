use device_emu::error::GuestProtocolError;
use device_emu::guest_mem::{GuestMemory, GuestRam};
use device_emu::virtio_queue::{
    Virtq, VirtqInner, VringAvail, VringDesc, VringDescTable, VringUsed, VringUsedElem,
    VIRTQ_DESC_F_NEXT, VIRTQ_DESC_F_WRITE, VIRTQ_READY, VRING_DESC_SIZE, VRING_USED_ELEM_SIZE,
};

const TABLE: u64 = 0x1000;
const AVAIL: u64 = 0x1040;
const USED: u64 = 0x2000;
const NUM: u16 = 4;

fn queue_put_desc(mem: &mut GuestRam, index: u64, addr: u64, len: u32, flags: u16, next: u16) {
    let mut b: Vec<u8> = Vec::new();
    b.extend_from_slice(&addr.to_le_bytes());
    b.extend_from_slice(&len.to_le_bytes());
    b.extend_from_slice(&flags.to_le_bytes());
    b.extend_from_slice(&next.to_le_bytes());
    assert!(mem.write(TABLE + 16 * index, &b));
}

fn queue_set_avail(mem: &mut GuestRam, ring: &[u16], idx: u16) {
    for (slot, head) in ring.iter().enumerate() {
        assert!(mem.write(AVAIL + 4 + 2 * slot as u64, &head.to_le_bytes()));
    }
    assert!(mem.write(AVAIL + 2, &idx.to_le_bytes()));
}

fn queue_bound() -> Virtq {
    let mut vq = Virtq::default();
    vq.set_desc_table(VringDescTable { addr: TABLE, num: NUM });
    vq.set_avail(VringAvail { addr: AVAIL, num: NUM });
    vq.set_used(VringUsed { addr: USED, num: NUM });
    vq
}

#[test]
fn queue_constants() {
    assert_eq!(VIRTQ_READY, 1);
    assert_eq!(VIRTQ_DESC_F_NEXT, 1);
    assert_eq!(VIRTQ_DESC_F_WRITE, 2);
    assert_eq!(VRING_DESC_SIZE, 16);
    assert_eq!(VRING_USED_ELEM_SIZE, 8);
}

#[test]
fn descriptor_decodes_its_sixteen_bytes() {
    let b: [u8; 16] = [
        0x08, 0x07, 0x06, 0x05, 0x04, 0x03, 0x02, 0x01, 0x00, 0x02, 0x00, 0x00, 0x03, 0x00, 0x07,
        0x00,
    ];
    let d = VringDesc::from_bytes(&b).unwrap();
    assert_eq!(VringDesc::from_bytes(&b[..15]), None);
    assert_eq!(VringDesc::from_bytes(&[]), None);
    assert_eq!(d, VringDesc { addr: 0x0102_0304_0506_0708, len: 512, flags: 3, next: 7 });
    assert_eq!(d.desc_addr(), 0x0102_0304_0506_0708);
    assert_eq!(d.desc_len(), 512);
    assert_eq!(d.desc_next_idx(), 7);
    assert!(d.desc_has_next());
    assert!(d.desc_is_writable());
}

#[test]
fn descriptor_flags() {
    let plain = VringDesc { addr: 0, len: 0, flags: 0, next: 0 };
    assert!(!plain.desc_has_next());
    assert!(!plain.desc_is_writable());
    let next = VringDesc { flags: VIRTQ_DESC_F_NEXT, ..plain };
    assert!(next.desc_has_next());
    assert!(!next.desc_is_writable());
    let write = VringDesc { flags: VIRTQ_DESC_F_WRITE, ..plain };
    assert!(!write.desc_has_next());
    assert!(write.desc_is_writable());
    let other = VringDesc { flags: 4, ..plain };
    assert!(!other.desc_has_next());
    assert!(!other.desc_is_writable());
}

#[test]
fn fresh_queue_is_unbound() {
    let vq = Virtq::default();
    let expected = VirtqInner {
        desc_table: None,
        avail: None,
        used: None,
        last_avail_idx: 0,
        last_used_idx: 0,
    };
    assert_eq!(vq.state(), expected);
    assert_eq!(VirtqInner::default(), expected);
}

#[test]
fn binding_replaces_views() {
    let mut vq = queue_bound();
    assert_eq!(vq.state().desc_table, Some(VringDescTable { addr: TABLE, num: NUM }));
    assert_eq!(vq.state().avail, Some(VringAvail { addr: AVAIL, num: NUM }));
    assert_eq!(vq.state().used, Some(VringUsed { addr: USED, num: NUM }));
    vq.set_avail(VringAvail { addr: 0x9000, num: 8 });
    assert_eq!(vq.state().avail, Some(VringAvail { addr: 0x9000, num: 8 }));
    assert_eq!(vq.state().desc_table, Some(VringDescTable { addr: TABLE, num: NUM }));
}

#[test]
fn pop_of_unbound_queue_returns_nothing() {
    let mem = GuestRam::new(0, 0x4000);
    let mut vq = Virtq::default();
    assert_eq!(vq.pop_avail_idx(&mem), None);
    vq.set_avail(VringAvail { addr: AVAIL, num: NUM });
    let mut mem = mem;
    queue_set_avail(&mut mem, &[1], 1);
    assert_eq!(vq.pop_avail_idx(&mem), None);
    vq.set_desc_table(VringDescTable { addr: TABLE, num: NUM });
    assert_eq!(vq.pop_avail_idx(&mem), Some(1));
}

#[test]
fn pop_returns_nothing_when_cursor_equals_idx() {
    let mem = GuestRam::new(0, 0x4000);
    let mut vq = queue_bound();
    assert_eq!(vq.pop_avail_idx(&mem), None);
    assert_eq!(vq.state().last_avail_idx, 0);
}

#[test]
fn pop_follows_ring_order() {
    let mut mem = GuestRam::new(0, 0x4000);
    queue_set_avail(&mut mem, &[3, 1, 2], 3);
    let mut vq = queue_bound();
    assert_eq!(vq.pop_avail_idx(&mem), Some(3));
    assert_eq!(vq.state().last_avail_idx, 1);
    assert_eq!(vq.pop_avail_idx(&mem), Some(1));
    assert_eq!(vq.pop_avail_idx(&mem), Some(2));
    assert_eq!(vq.state().last_avail_idx, 3);
    assert_eq!(vq.pop_avail_idx(&mem), None);
    assert_eq!(vq.pop_avail_idx(&mem), None);
    assert_eq!(vq.state().last_avail_idx, 3);
}

#[test]
fn pop_wraps_around_the_ring() {
    let mut mem = GuestRam::new(0, 0x4000);
    queue_set_avail(&mut mem, &[0, 1, 2, 3], 4);
    let mut vq = queue_bound();
    for expected in 0..4usize {
        assert_eq!(vq.pop_avail_idx(&mem), Some(expected));
    }
    assert_eq!(vq.pop_avail_idx(&mem), None);
    queue_set_avail(&mut mem, &[2, 0], 6);
    assert_eq!(vq.pop_avail_idx(&mem), Some(2));
    assert_eq!(vq.pop_avail_idx(&mem), Some(0));
    assert_eq!(vq.pop_avail_idx(&mem), None);
    assert_eq!(vq.state().last_avail_idx, 6);
}

#[test]
fn pop_counter_wraps_at_two_to_the_sixteen() {
    let mut mem = GuestRam::new(0, 0x4000);
    let mut vq = queue_bound();
    queue_set_avail(&mut mem, &[1, 1, 1, 1], 0xffff);
    let mut popped: u32 = 0;
    while vq.pop_avail_idx(&mem).is_some() {
        popped += 1;
    }
    assert_eq!(popped, 0xffff);
    assert_eq!(vq.state().last_avail_idx, 0xffff);
    queue_set_avail(&mut mem, &[0, 1, 2, 3], 1);
    assert_eq!(vq.pop_avail_idx(&mem), Some(3));
    assert_eq!(vq.state().last_avail_idx, 0);
    assert_eq!(vq.pop_avail_idx(&mem), Some(0));
    assert_eq!(vq.state().last_avail_idx, 1);
    assert_eq!(vq.pop_avail_idx(&mem), None);
}

#[test]
fn pop_of_unmapped_ring_returns_nothing() {
    let mem = GuestRam::new(0, 0x1000);
    let mut vq = queue_bound();
    assert_eq!(vq.pop_avail_idx(&mem), None);
    assert_eq!(vq.state().last_avail_idx, 0);
}

#[test]
fn pop_of_ring_without_size_returns_nothing() {
    let mut mem = GuestRam::new(0, 0x4000);
    queue_set_avail(&mut mem, &[1], 1);
    let mut vq = queue_bound();
    vq.set_avail(VringAvail { addr: AVAIL, num: 0 });
    assert_eq!(vq.pop_avail_idx(&mem), None);
}

#[test]
fn avail_view_reads_ring() {
    let mut mem = GuestRam::new(0, 0x4000);
    queue_set_avail(&mut mem, &[7, 8, 9, 10], 0x1234);
    let avail = VringAvail { addr: AVAIL, num: NUM };
    assert_eq!(avail.idx(&mem), Some(0x1234));
    assert_eq!(avail.get_ring_value(&mem, 0), Some(7));
    assert_eq!(avail.get_ring_value(&mem, 3), Some(10));
    assert_eq!(avail.get_ring_value(&mem, 4), None);
    let gone = VringAvail { addr: 0x8000, num: NUM };
    assert_eq!(gone.idx(&mem), None);
    assert_eq!(gone.get_ring_value(&mem, 0), None);
}

#[test]
fn descriptor_lookup_is_bounds_checked() {
    let mut mem = GuestRam::new(0, 0x4000);
    queue_put_desc(&mut mem, 2, 0x3000, 16, VIRTQ_DESC_F_NEXT, 3);
    let vq = queue_bound();
    assert_eq!(
        vq.desc_by_index(&mem, 2),
        Ok(VringDesc { addr: 0x3000, len: 16, flags: 1, next: 3 })
    );
    assert_eq!(vq.desc_by_index(&mem, 0), Ok(VringDesc { addr: 0, len: 0, flags: 0, next: 0 }));
    assert_eq!(vq.desc_by_index(&mem, 4), Err(GuestProtocolError::DescriptorOutOfRange));
    assert_eq!(vq.desc_by_index(&mem, usize::MAX), Err(GuestProtocolError::DescriptorOutOfRange));
}

#[test]
fn descriptor_lookup_of_unbound_queue() {
    let mem = GuestRam::new(0, 0x4000);
    let vq = Virtq::default();
    assert_eq!(vq.desc_by_index(&mem, 0), Err(GuestProtocolError::QueueNotBound));
}

#[test]
fn descriptor_lookup_in_unmapped_memory() {
    let mem = GuestRam::new(0, 0x1020);
    let vq = queue_bound();
    assert!(vq.desc_by_index(&mem, 1).is_ok());
    assert_eq!(vq.desc_by_index(&mem, 2), Err(GuestProtocolError::UnmappedAddress));
    let table = VringDescTable { addr: u64::MAX - 7, num: NUM };
    assert_eq!(table.entry(&mem, 1), Err(GuestProtocolError::UnmappedAddress));
}

#[test]
fn push_used_stores_element_then_index() {
    let mut mem = GuestRam::new(0, 0x4000);
    let mut vq = queue_bound();
    assert_eq!(vq.push_used_item(&mut mem, VringUsedElem { id: 2, len: 512 }), Ok(()));
    assert_eq!(vq.state().last_used_idx, 1);
    assert_eq!(mem.read(USED, 12), Some(vec![0, 0, 1, 0, 2, 0, 0, 0, 0, 2, 0, 0]));
    let used = VringUsed { addr: USED, num: NUM };
    assert_eq!(used.idx(&mem), Some(1));
    assert_eq!(used.get_ring_value(&mem, 0), Some(VringUsedElem { id: 2, len: 512 }));
    assert_eq!(used.get_ring_value(&mem, 1), Some(VringUsedElem { id: 0, len: 0 }));
    assert_eq!(used.get_ring_value(&mem, 4), None);
}

#[test]
fn push_used_wraps_around_the_ring() {
    let mut mem = GuestRam::new(0, 0x4000);
    let mut vq = queue_bound();
    for i in 0..6u32 {
        assert_eq!(vq.push_used_item(&mut mem, VringUsedElem { id: i, len: 10 * i }), Ok(()));
    }
    let used = VringUsed { addr: USED, num: NUM };
    assert_eq!(used.idx(&mem), Some(6));
    assert_eq!(vq.state().last_used_idx, 6);
    assert_eq!(used.get_ring_value(&mem, 0), Some(VringUsedElem { id: 4, len: 40 }));
    assert_eq!(used.get_ring_value(&mem, 1), Some(VringUsedElem { id: 5, len: 50 }));
    assert_eq!(used.get_ring_value(&mem, 2), Some(VringUsedElem { id: 2, len: 20 }));
    assert_eq!(used.get_ring_value(&mem, 3), Some(VringUsedElem { id: 3, len: 30 }));
}

#[test]
fn push_used_to_unbound_queue_fails() {
    let mut mem = GuestRam::new(0, 0x4000);
    let mut vq = Virtq::default();
    assert_eq!(
        vq.push_used_item(&mut mem, VringUsedElem { id: 1, len: 1 }),
        Err(GuestProtocolError::QueueNotBound)
    );
    vq.set_used(VringUsed { addr: USED, num: 0 });
    assert_eq!(
        vq.push_used_item(&mut mem, VringUsedElem { id: 1, len: 1 }),
        Err(GuestProtocolError::QueueNotBound)
    );
    assert_eq!(vq.state().last_used_idx, 0);
}

#[test]
fn push_used_to_unmapped_ring_changes_nothing() {
    let mut mem = GuestRam::new(0, 0x2008);
    let mut vq = queue_bound();
    assert_eq!(
        vq.push_used_item(&mut mem, VringUsedElem { id: 1, len: 1 }),
        Err(GuestProtocolError::UnmappedAddress)
    );
    assert_eq!(vq.state().last_used_idx, 0);
    assert_eq!(mem.read(0x2000, 8), Some(vec![0u8; 8]));
    let mut small = GuestRam::new(0x2004, 0x100);
    assert_eq!(
        vq.push_used_item(&mut small, VringUsedElem { id: 1, len: 1 }),
        Err(GuestProtocolError::UnmappedAddress)
    );
    assert_eq!(small.read(0x2004, 8), Some(vec![0u8; 8]));
}

#[test]
fn used_view_set_and_get() {
    let mut mem = GuestRam::new(0, 0x4000);
    let used = VringUsed { addr: USED, num: NUM };
    assert!(used.set_ring_value(&mut mem, 3, VringUsedElem { id: 0xaabb_ccdd, len: 0x1122_3344 }));
    assert_eq!(
        mem.read(USED + 4 + 24, 8),
        Some(vec![0xdd, 0xcc, 0xbb, 0xaa, 0x44, 0x33, 0x22, 0x11])
    );
    assert!(!used.set_ring_value(&mut mem, 4, VringUsedElem { id: 1, len: 1 }));
    assert!(used.set_idx(&mut mem, 0x0102));
    assert_eq!(mem.read(USED + 2, 2), Some(vec![2, 1]));
    assert_eq!(used.idx(&mem), Some(0x0102));
}

#[test]
fn push_used_goes_by_the_index_of_the_ring() {
    let mut mem = GuestRam::new(0, 0x4000);
    let mut vq = queue_bound();
    assert!(mem.write(USED + 2, &0x0102u16.to_le_bytes()));
    assert_eq!(vq.push_used_item(&mut mem, VringUsedElem { id: 3, len: 9 }), Ok(()));
    let used = VringUsed { addr: USED, num: NUM };
    assert_eq!(used.idx(&mem), Some(0x0103));
    assert_eq!(vq.state().last_used_idx, 0x0103);
    assert_eq!(used.get_ring_value(&mem, 2), Some(VringUsedElem { id: 3, len: 9 }));
    assert_eq!(used.get_ring_value(&mem, 0), Some(VringUsedElem { id: 0, len: 0 }));
    assert_eq!(vq.push_used_item(&mut mem, VringUsedElem { id: 1, len: 7 }), Ok(()));
    assert_eq!(used.idx(&mem), Some(0x0104));
    assert_eq!(used.get_ring_value(&mem, 3), Some(VringUsedElem { id: 1, len: 7 }));
}

#[test]
fn push_used_index_wraps_at_two_to_the_sixteen() {
    let mut mem = GuestRam::new(0, 0x4000);
    let mut vq = queue_bound();
    assert!(mem.write(USED + 2, &0xffffu16.to_le_bytes()));
    assert_eq!(vq.push_used_item(&mut mem, VringUsedElem { id: 2, len: 5 }), Ok(()));
    let used = VringUsed { addr: USED, num: NUM };
    assert_eq!(used.idx(&mem), Some(0));
    assert_eq!(vq.state().last_used_idx, 0);
    assert_eq!(used.get_ring_value(&mem, 3), Some(VringUsedElem { id: 2, len: 5 }));
}
