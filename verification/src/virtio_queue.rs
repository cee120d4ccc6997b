//! The split virtqueue: where its three regions lie, the records they hold,
//! and the device's side of the ring protocol.

use vstd::prelude::*;
use vstd::arithmetic::power2::is_pow2;
use crate::error::{ConfigError, GuestProtocolError};
use crate::guest_mem::{
    GuestMemory, range_mapped, read_range, write_range, mem_u16, load_u16, store_u16,
};
use crate::wire::{
    le_u16, le_u32, le_u64, read_u16, read_u32, read_u64, u16_le_bytes, u32_le_bytes, push_u32,
    lemma_u16_round_trip, lemma_u32_round_trip,
};

verus! {

/// Value of the queue-ready register of a queue that is in use.
pub const VIRTQ_READY: usize = 1;

/// Descriptor flag: the chain goes on at `next`.
pub const VIRTQ_DESC_F_NEXT: u16 = 1;

/// Descriptor flag: the device writes the buffer, the driver reads it.
pub const VIRTQ_DESC_F_WRITE: u16 = 2;

/// Bytes of one descriptor.
pub const VRING_DESC_SIZE: usize = 16;

/// Bytes of one used-ring element.
pub const VRING_USED_ELEM_SIZE: usize = 8;

/// The least multiple of `align` that is not below `size`.
pub open spec fn align_up(size: int, align: int) -> int {
    if size % align == 0 {
        size
    } else {
        size + align - size % align
    }
}

/// `align_up` yields a multiple of the alignment that is not below the size
/// and less than one alignment above it.
pub proof fn lemma_align_up(size: int, align: int)
    requires
        0 <= size,
        0 < align,
    ensures
        align_up(size, align) % align == 0,
        size <= align_up(size, align) < size + align,
{
    let r = size % align;
    let q = size / align;
    vstd::arithmetic::div_mod::lemma_fundamental_div_mod(size, align);
    vstd::arithmetic::div_mod::lemma_mod_pos_bound(size, align);
    if r != 0 {
        assert(align_up(size, align) == (q + 1) * align) by (nonlinear_arith)
            requires
                align_up(size, align) == size + align - r,
                size == align * q + r,
        ;
        vstd::arithmetic::div_mod::lemma_mod_multiples_basic(q + 1, align);
    }
}

/// No multiple of the alignment lies between the size and `align_up` of it.
pub proof fn lemma_align_up_least(size: int, align: int, m: int)
    requires
        0 <= size,
        0 < align,
        size <= m,
        m % align == 0,
    ensures
        align_up(size, align) <= m,
{
    let r = size % align;
    let q = size / align;
    let k = m / align;
    vstd::arithmetic::div_mod::lemma_fundamental_div_mod(size, align);
    vstd::arithmetic::div_mod::lemma_fundamental_div_mod(m, align);
    vstd::arithmetic::div_mod::lemma_mod_pos_bound(size, align);
    if r != 0 {
        assert(k > q) by (nonlinear_arith)
            requires
                align * k >= align * q + r,
                r > 0,
                align > 0,
        ;
        assert(align * k >= align * q + align) by (nonlinear_arith)
            requires
                k >= q + 1,
                align > 0,
        ;
    }
}

/// Rounds `size` up to the next multiple of `q_align`. There is none for an
/// alignment of zero, and none where the multiple does not fit a `usize`.
pub fn queue_align_up(size: usize, q_align: u32) -> (r: Option<usize>)
    ensures
        r == if q_align > 0 && align_up(size as int, q_align as int) <= usize::MAX {
            Some(align_up(size as int, q_align as int) as usize)
        } else {
            None
        },
{
    if q_align == 0 {
        return None;
    }
    let rem: usize = size % (q_align as usize);
    if rem == 0 {
        Some(size)
    } else if q_align as usize - rem > usize::MAX - size {
        None
    } else {
        Some(size + (q_align as usize - rem))
    }
}

/// Bytes of a descriptor table of `n` entries.
pub open spec fn desc_table_bytes(n: int) -> int {
    16 * n
}

/// Bytes of an available ring of `n` entries: flags, index, the ring, and
/// the event word.
pub open spec fn avail_ring_bytes(n: int) -> int {
    2 * (3 + n)
}

/// Bytes of a used ring of `n` entries: flags, index, the event word, and
/// the ring.
pub open spec fn used_ring_bytes(n: int) -> int {
    2 * 3 + 8 * n
}

/// Where the used ring of a queue of `n` entries starts.
pub open spec fn layout_used_offset(n: int, align: int) -> int {
    align_up(desc_table_bytes(n) + avail_ring_bytes(n), align)
}

/// Bytes of a whole queue of `n` entries.
pub open spec fn layout_size(n: int, align: int) -> int {
    align_up(layout_used_offset(n, align) + used_ring_bytes(n), align)
}

/// Why no layout exists for a queue size and an alignment, if none does.
pub open spec fn layout_error(queue_size: int, align: int) -> Option<ConfigError> {
    if !is_pow2(queue_size) {
        Some(ConfigError::QueueSizeNotPowerOfTwo)
    } else if align == 0 || layout_size(queue_size, align) > usize::MAX {
        Some(ConfigError::AlignmentOutOfRange)
    } else {
        None
    }
}

/// The three regions of a queue follow each other without overlap: the
/// available ring starts where the descriptor table ends, and the used ring
/// and the end of the queue lie on multiples of the alignment, each at or
/// behind the end of the region before it.
pub proof fn lemma_layout_regions(queue_size: int, align: int)
    requires
        0 <= queue_size,
        0 < align,
    ensures
        layout_used_offset(queue_size, align) % align == 0,
        layout_size(queue_size, align) % align == 0,
        desc_table_bytes(queue_size) + avail_ring_bytes(queue_size) <= layout_used_offset(
            queue_size,
            align,
        ),
        layout_used_offset(queue_size, align) + used_ring_bytes(queue_size) <= layout_size(
            queue_size,
            align,
        ),
{
    lemma_align_up(desc_table_bytes(queue_size) + avail_ring_bytes(queue_size), align);
    lemma_align_up(layout_used_offset(queue_size, align) + used_ring_bytes(queue_size), align);
}

/// A positive 16-bit number is a power of two exactly when it shares no bit
/// with its predecessor.
proof fn lemma_single_bit(n: u16)
    requires
        n > 0,
    ensures
        (n & ((n - 1) as u16) == 0) <==> is_pow2(n as int),
    decreases n,
{
    reveal(is_pow2);
    let below: u16 = (n - 1) as u16;
    if n == 1 {
        assert(n & below == 0) by (bit_vector)
            requires
                n == 1,
                below == 0,
        ;
    } else {
        let half: u16 = n / 2;
        let half_below: u16 = (half - 1) as u16;
        assert((n & below == 0) <==> (n % 2 == 0 && half & half_below == 0)) by (bit_vector)
            requires
                n > 1,
                below == n - 1,
                half == n / 2,
                half_below == half - 1,
        ;
        lemma_single_bit(half);
    }
}

/// Whether `n` is a power of two.
pub fn is_power_of_two(n: u16) -> (r: bool)
    ensures
        r == is_pow2(n as int),
{
    if n == 0 {
        proof {
            reveal(is_pow2);
        }
        return false;
    }
    proof {
        lemma_single_bit(n);
    }
    n & (n - 1) == 0
}

/// Where the regions of one queue lie, in bytes from its start.
pub struct VirtQueueLayout {
    avail_offset: usize,
    used_offset: usize,
    size: usize,
}

impl VirtQueueLayout {
    /// Offset of the available ring.
    pub closed spec fn avail_offset(&self) -> int {
        self.avail_offset as int
    }

    /// Offset of the used ring.
    pub closed spec fn used_offset(&self) -> int {
        self.used_offset as int
    }

    /// Bytes of the whole queue.
    pub closed spec fn size(&self) -> int {
        self.size as int
    }

    /// The layout of a queue of `queue_size` entries whose used ring is
    /// aligned to `q_align`: the descriptor table, then the available ring,
    /// then the used ring on the next multiple of `q_align`.
    pub fn new(queue_size: u16, q_align: u32) -> (r: Result<Self, ConfigError>)
        ensures
            match r {
                Ok(layout) => {
                    &&& layout_error(queue_size as int, q_align as int) is None
                    &&& layout.avail_offset() == desc_table_bytes(queue_size as int)
                    &&& layout.used_offset() == layout_used_offset(queue_size as int, q_align as int)
                    &&& layout.size() == layout_size(queue_size as int, q_align as int)
                },
                Err(e) => layout_error(queue_size as int, q_align as int) == Some(e),
            },
    {
        if !is_power_of_two(queue_size) {
            return Err(ConfigError::QueueSizeNotPowerOfTwo);
        }
        if q_align == 0 {
            return Err(ConfigError::AlignmentOutOfRange);
        }
        let n: usize = queue_size as usize;
        let desc: usize = VRING_DESC_SIZE * n;
        let avail: usize = 2 * (3 + n);
        let used: usize = 2 * 3 + VRING_USED_ELEM_SIZE * n;
        proof {
            lemma_align_up((desc + avail) as int, q_align as int);
            lemma_align_up(layout_used_offset(n as int, q_align as int) + used, q_align as int);
        }
        let used_offset: usize = match queue_align_up(desc + avail, q_align) {
            Some(offset) => offset,
            None => {
                return Err(ConfigError::AlignmentOutOfRange);
            },
        };
        if used > usize::MAX - used_offset {
            return Err(ConfigError::AlignmentOutOfRange);
        }
        match queue_align_up(used_offset + used, q_align) {
            Some(size) => Ok(VirtQueueLayout { avail_offset: desc, used_offset, size }),
            None => Err(ConfigError::AlignmentOutOfRange),
        }
    }

    /// Offset of the available ring.
    pub fn get_avail_offset(&self) -> (r: usize)
        ensures
            r == self.avail_offset(),
    {
        self.avail_offset
    }

    /// Offset of the used ring.
    pub fn get_used_offset(&self) -> (r: usize)
        ensures
            r == self.used_offset(),
    {
        self.used_offset
    }

    /// Bytes of the whole queue.
    pub fn get_size(&self) -> (r: usize)
        ensures
            r == self.size(),
    {
        self.size
    }
}

/// One descriptor: a buffer of guest memory and a link to the next one.
#[derive(Debug, Copy, Clone, PartialEq, Eq, Structural)]
pub struct VringDesc {
    /// Guest-physical address of the buffer.
    pub addr: u64,
    /// Bytes of the buffer.
    pub len: u32,
    /// `VIRTQ_DESC_F_NEXT` and `VIRTQ_DESC_F_WRITE`.
    pub flags: u16,
    /// Index of the next descriptor of the chain, where the chain goes on.
    pub next: u16,
}

impl VringDesc {
    /// The descriptor that sixteen bytes of a descriptor table hold.
    pub open spec fn of_bytes(b: Seq<u8>) -> VringDesc {
        VringDesc {
            addr: le_u64(b, 0) as u64,
            len: le_u32(b, 8) as u32,
            flags: le_u16(b, 12) as u16,
            next: le_u16(b, 14) as u16,
        }
    }

    /// Whether the chain goes on behind this descriptor.
    pub open spec fn has_next(&self) -> bool {
        self.flags & VIRTQ_DESC_F_NEXT != 0
    }

    /// Whether the device may write the buffer.
    pub open spec fn is_writable(&self) -> bool {
        self.flags & VIRTQ_DESC_F_WRITE != 0
    }

    /// Decodes one entry of a descriptor table from the first sixteen
    /// bytes of `b`; fewer bytes hold no descriptor.
    pub fn from_bytes(b: &[u8]) -> (r: Option<VringDesc>)
        ensures
            r == if b@.len() >= 16 {
                Some(Self::of_bytes(b@))
            } else {
                None
            },
    {
        if b.len() < VRING_DESC_SIZE {
            return None;
        }
        Some(
            VringDesc {
                addr: read_u64(b, 0),
                len: read_u32(b, 8),
                flags: read_u16(b, 12),
                next: read_u16(b, 14),
            },
        )
    }

    /// Whether the chain goes on behind this descriptor.
    pub fn desc_has_next(&self) -> (r: bool)
        ensures
            r == self.has_next(),
    {
        self.flags & VIRTQ_DESC_F_NEXT != 0
    }

    /// Index of the next descriptor of the chain.
    pub fn desc_next_idx(&self) -> (r: u16)
        ensures
            r == self.next,
    {
        self.next
    }

    /// Guest-physical address of the buffer.
    pub fn desc_addr(&self) -> (r: u64)
        ensures
            r == self.addr,
    {
        self.addr
    }

    /// Bytes of the buffer.
    pub fn desc_len(&self) -> (r: u32)
        ensures
            r == self.len,
    {
        self.len
    }

    /// Whether the device may write the buffer.
    pub fn desc_is_writable(&self) -> (r: bool)
        ensures
            r == self.is_writable(),
    {
        self.flags & VIRTQ_DESC_F_WRITE != 0
    }
}

/// View of a descriptor table of `num` entries at guest-physical `addr`.
#[derive(Debug, Copy, Clone, PartialEq, Eq, Structural)]
pub struct VringDescTable {
    pub addr: u64,
    pub num: u16,
}

impl VringDescTable {
    /// Entry `index` as `m` holds it: an index at or above the table's size
    /// and an entry in unmapped memory are the guest's errors.
    pub open spec fn entry_in(&self, m: Map<u64, u8>, index: int) -> Result<
        VringDesc,
        GuestProtocolError,
    > {
        if !(0 <= index < self.num) {
            Err(GuestProtocolError::DescriptorOutOfRange)
        } else if !range_mapped(m, self.addr + 16 * index, 16) {
            Err(GuestProtocolError::UnmappedAddress)
        } else {
            Ok(VringDesc::of_bytes(read_range(m, self.addr + 16 * index, 16)))
        }
    }

    /// Reads entry `index` from guest memory.
    pub fn entry<M: GuestMemory>(&self, mem: &M, index: usize) -> (r: Result<
        VringDesc,
        GuestProtocolError,
    >)
        ensures
            r == self.entry_in(mem.bytes(), index as int),
    {
        if index >= self.num as usize {
            return Err(GuestProtocolError::DescriptorOutOfRange);
        }
        let offset: u64 = VRING_DESC_SIZE as u64 * index as u64;
        let addr: u64 = match self.addr.checked_add(offset) {
            Some(addr) => addr,
            None => {
                return Err(GuestProtocolError::UnmappedAddress);
            },
        };
        match mem.read(addr, VRING_DESC_SIZE) {
            Some(b) => match VringDesc::from_bytes(b.as_slice()) {
                Some(d) => Ok(d),
                None => Err(GuestProtocolError::UnmappedAddress),
            },
            None => Err(GuestProtocolError::UnmappedAddress),
        }
    }
}

/// View of an available ring of `num` entries at guest-physical `addr`. The
/// driver writes it; the device only reads.
#[derive(Debug, Copy, Clone, PartialEq, Eq, Structural)]
pub struct VringAvail {
    pub addr: u64,
    pub num: u16,
}

impl VringAvail {
    /// The ring's index field as `m` holds it: how many entries the driver
    /// has published so far, modulo 2^16.
    pub open spec fn idx_in(&self, m: Map<u64, u8>) -> Option<u16> {
        mem_u16(m, self.addr + 2)
    }

    /// Slot `slot` of the ring as `m` holds it: the head of a chain.
    pub open spec fn ring_in(&self, m: Map<u64, u8>, slot: int) -> Option<u16> {
        if 0 <= slot < self.num {
            mem_u16(m, self.addr + 4 + 2 * slot)
        } else {
            None
        }
    }

    /// Whether `m` maps the index field and every slot of the ring.
    pub open spec fn readable(&self, m: Map<u64, u8>) -> bool {
        &&& self.idx_in(m) is Some
        &&& forall|slot: int| 0 <= slot < self.num ==> (#[trigger] self.ring_in(m, slot)) is Some
    }

    /// Reads the ring's index field.
    pub fn idx<M: GuestMemory>(&self, mem: &M) -> (r: Option<u16>)
        ensures
            r == self.idx_in(mem.bytes()),
    {
        load_u16(mem, self.addr, 2)
    }

    /// Reads slot `index` of the ring; there is none at or above the ring's
    /// size.
    pub fn get_ring_value<M: GuestMemory>(&self, mem: &M, index: usize) -> (r: Option<u16>)
        ensures
            r == self.ring_in(mem.bytes(), index as int),
    {
        if index >= self.num as usize {
            return None;
        }
        load_u16(mem, self.addr, 4 + 2 * index as u64)
    }
}

/// One element of the used ring: a chain handed back to the driver.
#[derive(Debug, Copy, Clone, PartialEq, Eq, Structural)]
pub struct VringUsedElem {
    /// Head of the chain.
    pub id: u32,
    /// Bytes the device wrote into the chain's buffers.
    pub len: u32,
}

impl VringUsedElem {
    /// The eight bytes of the element in the ring.
    pub open spec fn bytes(&self) -> Seq<u8> {
        u32_le_bytes(self.id as int) + u32_le_bytes(self.len as int)
    }

    /// The element that eight bytes of a used ring hold.
    pub open spec fn of_bytes(b: Seq<u8>) -> VringUsedElem {
        VringUsedElem { id: le_u32(b, 0) as u32, len: le_u32(b, 4) as u32 }
    }
}

/// View of a used ring of `num` entries at guest-physical `addr`. The device
/// writes it; the driver only reads.
#[derive(Debug, Copy, Clone, PartialEq, Eq, Structural)]
pub struct VringUsed {
    pub addr: u64,
    pub num: u16,
}

impl VringUsed {
    /// The ring's index field as `m` holds it.
    pub open spec fn idx_in(&self, m: Map<u64, u8>) -> Option<u16> {
        mem_u16(m, self.addr + 2)
    }

    /// Slot `slot` of the ring as `m` holds it.
    pub open spec fn ring_in(&self, m: Map<u64, u8>, slot: int) -> Option<VringUsedElem> {
        if 0 <= slot < self.num && range_mapped(m, self.addr + 4 + 8 * slot, 8) {
            Some(VringUsedElem::of_bytes(read_range(m, self.addr + 4 + 8 * slot, 8)))
        } else {
            None
        }
    }

    /// Whether slot `slot` exists and `m` maps it.
    pub open spec fn slot_mapped(&self, m: Map<u64, u8>, slot: int) -> bool {
        0 <= slot < self.num && range_mapped(m, self.addr + 4 + 8 * slot, 8)
    }

    /// `m` with `elem` stored in slot `slot`.
    pub open spec fn with_elem(&self, m: Map<u64, u8>, slot: int, elem: VringUsedElem) -> Map<
        u64,
        u8,
    > {
        write_range(m, self.addr + 4 + 8 * slot, elem.bytes())
    }

    /// `m` with `idx` stored in the ring's index field.
    pub open spec fn with_idx(&self, m: Map<u64, u8>, idx: u16) -> Map<u64, u8> {
        write_range(m, self.addr + 2, u16_le_bytes(idx as int))
    }

    /// Reads the ring's index field.
    pub fn idx<M: GuestMemory>(&self, mem: &M) -> (r: Option<u16>)
        ensures
            r == self.idx_in(mem.bytes()),
    {
        load_u16(mem, self.addr, 2)
    }

    /// Reads slot `index` of the ring.
    pub fn get_ring_value<M: GuestMemory>(&self, mem: &M, index: usize) -> (r: Option<
        VringUsedElem,
    >)
        ensures
            r == self.ring_in(mem.bytes(), index as int),
    {
        if index >= self.num as usize {
            return None;
        }
        let addr: u64 = match self.addr.checked_add(4 + VRING_USED_ELEM_SIZE as u64 * index as u64) {
            Some(addr) => addr,
            None => {
                return None;
            },
        };
        match mem.read(addr, VRING_USED_ELEM_SIZE) {
            Some(b) => Some(
                VringUsedElem { id: read_u32(b.as_slice(), 0), len: read_u32(b.as_slice(), 4) },
            ),
            None => None,
        }
    }

    /// Stores `elem` in slot `index` of the ring; nothing is stored where
    /// the slot does not exist or is not mapped.
    pub fn set_ring_value<M: GuestMemory>(
        &self,
        mem: &mut M,
        index: usize,
        elem: VringUsedElem,
    ) -> (ok: bool)
        ensures
            ok == self.slot_mapped(old(mem).bytes(), index as int),
            ok ==> final(mem).bytes() == self.with_elem(old(mem).bytes(), index as int, elem),
            !ok ==> final(mem).bytes() == old(mem).bytes(),
    {
        if index >= self.num as usize {
            return false;
        }
        let addr: u64 = match self.addr.checked_add(4 + VRING_USED_ELEM_SIZE as u64 * index as u64) {
            Some(addr) => addr,
            None => {
                return false;
            },
        };
        let mut b: Vec<u8> = Vec::new();
        push_u32(&mut b, elem.id);
        push_u32(&mut b, elem.len);
        assert(b@ =~= elem.bytes());
        mem.write(addr, b.as_slice())
    }

    /// Stores `idx` in the ring's index field, where it is mapped.
    pub fn set_idx<M: GuestMemory>(&self, mem: &mut M, idx: u16) -> (ok: bool)
        ensures
            ok == self.idx_in(old(mem).bytes()) is Some,
            ok ==> final(mem).bytes() == self.with_idx(old(mem).bytes(), idx),
            !ok ==> final(mem).bytes() == old(mem).bytes(),
    {
        store_u16(mem, self.addr, 2, idx)
    }
}

/// The counter that follows `idx`, modulo 2^16.
pub open spec fn next_idx(idx: u16) -> u16 {
    if idx == 0xffff {
        0
    } else {
        (idx + 1) as u16
    }
}

/// What the device keeps of one queue: the views it last bound, how far it
/// has consumed the available ring, and the index of the used ring that it
/// published last. Both cursors count modulo 2^16.
#[derive(Debug, Copy, Clone, PartialEq, Eq, Structural)]
pub struct VirtqInner {
    pub desc_table: Option<VringDescTable>,
    pub avail: Option<VringAvail>,
    pub used: Option<VringUsed>,
    pub last_avail_idx: u16,
    pub last_used_idx: u16,
}

impl VirtqInner {
    /// A queue with no view bound and both cursors at zero.
    pub fn default() -> (r: Self)
        ensures
            r == (VirtqInner {
                desc_table: None,
                avail: None,
                used: None,
                last_avail_idx: 0,
                last_used_idx: 0,
            }),
    {
        VirtqInner {
            desc_table: None,
            avail: None,
            used: None,
            last_avail_idx: 0,
            last_used_idx: 0,
        }
    }

    /// The available ring, where one is bound together with a descriptor
    /// table and has a size.
    pub open spec fn avail_view(self) -> Option<VringAvail> {
        match (self.avail, self.desc_table) {
            (Some(avail), Some(_)) => if avail.num > 0 {
                Some(avail)
            } else {
                None
            },
            _ => None,
        }
    }

    /// The head of the chain that the driver published at the device's
    /// cursor, as `m` holds it. There is none where the cursor has reached
    /// the ring's index, and none where the ring cannot be read.
    pub open spec fn next_avail(self, m: Map<u64, u8>) -> Option<u16> {
        match self.avail_view() {
            Some(avail) => match avail.idx_in(m) {
                Some(idx) => if idx == self.last_avail_idx {
                    None
                } else {
                    avail.ring_in(m, self.last_avail_idx as int % avail.num as int)
                },
                None => None,
            },
            None => None,
        }
    }

    /// The queue after one entry of the available ring was consumed.
    pub open spec fn after_pop(self) -> VirtqInner {
        VirtqInner { last_avail_idx: next_idx(self.last_avail_idx), ..self }
    }

    /// Descriptor `index` as `m` holds it.
    pub open spec fn desc_in(self, m: Map<u64, u8>, index: int) -> Result<
        VringDesc,
        GuestProtocolError,
    > {
        match self.desc_table {
            Some(table) => table.entry_in(m, index),
            None => Err(GuestProtocolError::QueueNotBound),
        }
    }

    /// Why `elem` cannot be appended to the used ring in `m`, if it cannot:
    /// no ring with a size is bound, or the ring's index field or the slot
    /// that it names is not mapped.
    pub open spec fn push_error(self, m: Map<u64, u8>) -> Option<GuestProtocolError> {
        match self.used {
            Some(used) => if used.num == 0 {
                Some(GuestProtocolError::QueueNotBound)
            } else {
                match used.idx_in(m) {
                    Some(idx) => if used.slot_mapped(m, idx as int % used.num as int) {
                        None
                    } else {
                        Some(GuestProtocolError::UnmappedAddress)
                    },
                    None => Some(GuestProtocolError::UnmappedAddress),
                }
            },
            None => Some(GuestProtocolError::QueueNotBound),
        }
    }

    /// Guest memory after `elem` was appended to the used ring: the element
    /// in the slot that the ring's index names in `m`, then the ring's index
    /// one further.
    pub open spec fn pushed_mem(self, m: Map<u64, u8>, elem: VringUsedElem) -> Map<u64, u8> {
        let used = self.used->0;
        let idx = used.idx_in(m)->0;
        used.with_idx(used.with_elem(m, idx as int % used.num as int, elem), next_idx(idx))
    }

    /// The queue after one element was appended to the used ring in `m`:
    /// the cursor keeps the index that was published.
    pub open spec fn after_push(self, m: Map<u64, u8>) -> VirtqInner {
        VirtqInner { last_used_idx: next_idx(self.used->0.idx_in(m)->0), ..self }
    }
}

/// The device's side of one virtqueue. It owns no guest memory: every
/// operation reaches the rings through the translation capability it is
/// handed, at the addresses of the views bound last.
pub struct Virtq {
    inner: VirtqInner,
}

impl View for Virtq {
    type V = VirtqInner;

    closed spec fn view(&self) -> VirtqInner {
        self.inner
    }
}

impl Virtq {
    /// A queue with no view bound and both cursors at zero.
    pub fn default() -> (r: Virtq)
        ensures
            r@ == (VirtqInner {
                desc_table: None,
                avail: None,
                used: None,
                last_avail_idx: 0,
                last_used_idx: 0,
            }),
    {
        Virtq { inner: VirtqInner::default() }
    }

    /// The views and cursors of the queue.
    pub fn state(&self) -> (r: VirtqInner)
        ensures
            r == self@,
    {
        self.inner
    }

    /// Binds the descriptor table, in place of the one bound before.
    pub fn set_desc_table(&mut self, table: VringDescTable)
        ensures
            final(self)@ == (VirtqInner { desc_table: Some(table), ..old(self)@ }),
    {
        self.inner.desc_table = Some(table);
    }

    /// Binds the available ring, in place of the one bound before.
    pub fn set_avail(&mut self, avail: VringAvail)
        ensures
            final(self)@ == (VirtqInner { avail: Some(avail), ..old(self)@ }),
    {
        self.inner.avail = Some(avail);
    }

    /// Binds the used ring, in place of the one bound before.
    pub fn set_used(&mut self, used: VringUsed)
        ensures
            final(self)@ == (VirtqInner { used: Some(used), ..old(self)@ }),
    {
        self.inner.used = Some(used);
    }

    /// Takes the next published chain off the available ring and returns its
    /// head. Of a ring that can be read, nothing is returned exactly when the
    /// cursor has reached the ring's index; else the entry at the cursor is
    /// returned and the cursor moves on by one.
    pub fn pop_avail_idx<M: GuestMemory>(&mut self, mem: &M) -> (r: Option<usize>)
        ensures
            match old(self)@.next_avail(mem.bytes()) {
                Some(head) => r == Some(head as usize) && final(self)@ == old(self)@.after_pop(),
                None => r is None && final(self)@ == old(self)@,
            },
            old(self)@.avail_view() matches Some(avail) ==> (avail.readable(mem.bytes()) ==> (r is None
                <==> avail.idx_in(mem.bytes()) == Some(old(self)@.last_avail_idx))),
    {
        let avail: VringAvail = match (self.inner.avail, self.inner.desc_table) {
            (Some(avail), Some(_)) => avail,
            _ => {
                return None;
            },
        };
        if avail.num == 0 {
            return None;
        }
        let idx: u16 = match avail.idx(mem) {
            Some(idx) => idx,
            None => {
                return None;
            },
        };
        if idx == self.inner.last_avail_idx {
            return None;
        }
        let slot: usize = (self.inner.last_avail_idx % avail.num) as usize;
        match avail.get_ring_value(mem, slot) {
            Some(head) => {
                self.inner.last_avail_idx = self.inner.last_avail_idx.wrapping_add(1);
                Some(head as usize)
            },
            None => None,
        }
    }

    /// Reads descriptor `idx` of the bound table. An index at or above the
    /// queue size is the guest's error.
    pub fn desc_by_index<M: GuestMemory>(&self, mem: &M, idx: usize) -> (r: Result<
        VringDesc,
        GuestProtocolError,
    >)
        ensures
            r == self@.desc_in(mem.bytes(), idx as int),
    {
        match self.inner.desc_table {
            Some(table) => table.entry(mem, idx),
            None => Err(GuestProtocolError::QueueNotBound),
        }
    }

    /// Appends `elem` to the used ring: stores it in the slot that the
    /// ring's index names, modulo the ring's size, then publishes the index
    /// one further and keeps it as the cursor. Where that cannot be done,
    /// nothing changes.
    pub fn push_used_item<M: GuestMemory>(&mut self, mem: &mut M, elem: VringUsedElem) -> (r: Result<
        (),
        GuestProtocolError,
    >)
        ensures
            match old(self)@.push_error(old(mem).bytes()) {
                Some(e) => {
                    &&& r == Err::<(), GuestProtocolError>(e)
                    &&& final(self)@ == old(self)@
                    &&& final(mem).bytes() == old(mem).bytes()
                },
                None => {
                    &&& r is Ok
                    &&& final(self)@ == old(self)@.after_push(old(mem).bytes())
                    &&& final(mem).bytes() == old(self)@.pushed_mem(old(mem).bytes(), elem)
                },
            },
    {
        let used: VringUsed = match self.inner.used {
            Some(used) => used,
            None => {
                return Err(GuestProtocolError::QueueNotBound);
            },
        };
        if used.num == 0 {
            return Err(GuestProtocolError::QueueNotBound);
        }
        let idx: u16 = match used.idx(mem) {
            Some(idx) => idx,
            None => {
                return Err(GuestProtocolError::UnmappedAddress);
            },
        };
        let slot: usize = (idx % used.num) as usize;
        if !used.set_ring_value(mem, slot, elem) {
            return Err(GuestProtocolError::UnmappedAddress);
        }
        let next: u16 = idx.wrapping_add(1);
        let published: bool = used.set_idx(mem, next);
        assert(published) by {
            let before = old(mem).bytes();
            let after = used.with_elem(before, slot as int, elem);
            assert(forall|a: u64| before.dom().contains(a) ==> after.dom().contains(a));
        }
        self.inner.last_used_idx = next;
        Ok(())
    }
}

/// A push moves the ring's index on by one: after an element was appended
/// to a ring whose index read `u`, the index reads `u + 1` modulo 2^16, the
/// slot `u` modulo the ring's size reads the element, and the device's
/// cursor is the index.
pub proof fn lemma_push_advances_index(q: VirtqInner, m: Map<u64, u8>, elem: VringUsedElem)
    requires
        q.push_error(m) is None,
    ensures
        q.used->0.idx_in(q.pushed_mem(m, elem)) == Some(next_idx(q.used->0.idx_in(m)->0)),
        q.used->0.ring_in(
            q.pushed_mem(m, elem),
            q.used->0.idx_in(m)->0 as int % q.used->0.num as int,
        ) == Some(elem),
        q.after_push(m).last_used_idx == next_idx(q.used->0.idx_in(m)->0),
{
    let used = q.used->0;
    let slot = used.idx_in(m)->0 as int % used.num as int;
    let at = used.addr + 4 + 8 * slot;
    let next = next_idx(used.idx_in(m)->0);
    let filled = used.with_elem(m, slot, elem);
    let after = q.pushed_mem(m, elem);
    lemma_u16_round_trip(next as int);
    lemma_u32_round_trip(elem.id as int);
    lemma_u32_round_trip(elem.len as int);
    assert(elem.bytes().len() == 8);
    assert(forall|a: u64| m.dom().contains(a) <==> after.dom().contains(a));
    assert(range_mapped(after, used.addr + 2, 2));
    assert(range_mapped(after, at, 8));
    assert(read_range(after, used.addr + 2, 2) =~= u16_le_bytes(next as int));
    assert(read_range(after, at, 8) =~= elem.bytes());
    let low = u32_le_bytes(elem.id as int);
    let high = u32_le_bytes(elem.len as int);
    assert(forall|i: int| 0 <= i < 4 ==> elem.bytes()[i] == low[i]);
    assert(forall|i: int| 0 <= i < 4 ==> elem.bytes()[4 + i] == high[i]);
    assert(le_u32(elem.bytes(), 0) == le_u32(low, 0));
    assert(le_u32(elem.bytes(), 4) == le_u32(high, 0)) by {
        assert(elem.bytes()[4] == high[0] && elem.bytes()[5] == high[1] && elem.bytes()[6]
            == high[2] && elem.bytes()[7] == high[3]);
    }
}

/// The entries that a driver has published and the device has not consumed
/// come out in the order of the ring, one for each pop: the pop that follows
/// `k` others returns the slot `k` counters behind the cursor, and it
/// returns one exactly while the cursor has not reached the ring's index.
pub proof fn lemma_pops_follow_ring(q: VirtqInner, m: Map<u64, u8>, k: nat)
    requires
        q.avail_view() is Some,
        q.avail_view()->0.readable(m),
    ensures
        pops(q, k).avail_view() == q.avail_view(),
        pops(q, k).last_avail_idx as int == (q.last_avail_idx as int + k as int) % 0x1_0000,
        pops(q, k).next_avail(m) is None <==> q.avail_view()->0.idx_in(m) == Some(
            pops(q, k).last_avail_idx,
        ),
        pops(q, k).next_avail(m) is Some ==> pops(q, k).next_avail(m) == q.avail_view()->0.ring_in(
            m,
            ((q.last_avail_idx as int + k as int) % 0x1_0000) % (q.avail_view()->0.num as int),
        ),
    decreases k,
{
    if k > 0 {
        lemma_pops_follow_ring(q, m, (k - 1) as nat);
    }
    let avail = q.avail_view()->0;
    let at = pops(q, k);
    assert(avail.ring_in(m, at.last_avail_idx as int % avail.num as int) is Some);
}

/// The queue after `k` entries of the available ring were consumed.
pub open spec fn pops(q: VirtqInner, k: nat) -> VirtqInner
    decreases k,
{
    if k == 0 {
        q
    } else {
        pops(q, (k - 1) as nat).after_pop()
    }
}

/// No entry comes out twice: as long as fewer than 2^16 entries are taken,
/// two different pops consume different counters of the ring.
pub proof fn lemma_pops_are_distinct(q: VirtqInner, i: nat, j: nat)
    requires
        i < j < i + 0x1_0000,
    ensures
        pops(q, i).last_avail_idx != pops(q, j).last_avail_idx,
{
    lemma_pops_cursor(q, i);
    lemma_pops_cursor(q, j);
}

/// The cursor after `k` pops.
proof fn lemma_pops_cursor(q: VirtqInner, k: nat)
    ensures
        pops(q, k).last_avail_idx as int == (q.last_avail_idx as int + k as int) % 0x1_0000,
        pops(q, k).avail == q.avail,
        pops(q, k).desc_table == q.desc_table,
    decreases k,
{
    if k > 0 {
        lemma_pops_cursor(q, (k - 1) as nat);
    }
}

} // verus!
