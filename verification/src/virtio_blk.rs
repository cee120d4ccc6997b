//! The virtio block device: requests as the driver chains them, the backend
//! that holds the sectors, and the dispatcher between the two.

use vstd::prelude::*;
use core::ops::Range;
use crate::blk_ramfs::RamfsDev;
use crate::device::{MmioAccess, MmioDevice};
use crate::error::GuestProtocolError;
use crate::sync::{guard_mut, mutex_lock, mutex_new};
use crate::guest_mem::{
    GuestMemory, range_mapped, read_range, write_range, disjoint, lemma_write_range_reads_back,
    lemma_write_range_keeps_u16, lemma_write_range_frame,
};
use crate::virtio_mmio::{
    VirtMmioRegs, VirtioDeviceType, VIRTIO_MMIO_MAGIC_VALUE, VIRTIO_MMIO_VERSION,
    VIRTIO_MMIO_DEVICE_ID, VIRTIO_MMIO_VENDOR_ID, VIRTIO_MMIO_HOST_FEATURES,
    VIRTIO_MMIO_HOST_FEATURES_SEL, VIRTIO_MMIO_GUEST_FEATURES, VIRTIO_MMIO_GUEST_FEATURES_SEL,
    VIRTIO_MMIO_GUEST_PAGE_SIZE, VIRTIO_MMIO_QUEUE_SEL, VIRTIO_MMIO_QUEUE_NUM_MAX,
    VIRTIO_MMIO_QUEUE_NUM, VIRTIO_MMIO_QUEUE_ALIGN, VIRTIO_MMIO_QUEUE_PFN,
    VIRTIO_MMIO_QUEUE_READY, VIRTIO_MMIO_QUEUE_NOTIFY, VIRTIO_MMIO_INTERRUPT_STATUS,
    VIRTIO_MMIO_INTERRUPT_ACK, VIRTIO_MMIO_STATUS, VIRTIO_MMIO_CONFIG, VIRTIO_BLK_CONFIG_CAPACITY,
};
use crate::virtio_queue::{
    Virtq, VirtqInner, VringDesc, VringDescTable, VringAvail, VringUsed, VringUsedElem,
    VirtQueueLayout, layout_error, layout_size, layout_used_offset, desc_table_bytes, next_idx,
    lemma_push_advances_index,
};
use crate::wire::{le_u32, le_u64, read_u32, read_u64};

verus! {

/// Bytes of one sector.
pub const SECTOR_SIZE: usize = 512;

/// Request type: read sectors into the driver's buffers.
pub const VIRTIO_BLK_T_IN: usize = 0;

/// Request type: write the driver's buffers to sectors.
pub const VIRTIO_BLK_T_OUT: usize = 1;

/// Request type: flush.
pub const VIRTIO_BLK_T_FLUSH: usize = 4;

/// Request type: get the device's identity.
pub const VIRTIO_BLK_T_GET_ID: usize = 8;

/// Status: the request was carried out.
pub const VIRTIO_BLK_S_OK: usize = 0;

/// Status: the backend failed, or a buffer could not be reached.
pub const VIRTIO_BLK_S_IOERR: usize = 1;

/// Status: the device does not carry out requests of this type.
pub const VIRTIO_BLK_S_UNSUPP: usize = 2;

/// Why a backend did not carry out a transfer.
#[derive(Clone, Copy, Debug, PartialEq, Eq, Structural)]
pub enum BlkError {
    /// The transfer reaches behind the last byte of the device.
    OutOfRange,
}

/// Whether `len` bytes from the start of sector `sector` lie within `size`
/// bytes, and sector and length are numbers a backend can be handed.
pub open spec fn transfer_fits(size: int, sector: int, len: int) -> bool {
    &&& 0 <= sector <= usize::MAX
    &&& 0 <= len <= usize::MAX
    &&& sector * 512 + len <= size
}

/// `contents` with `data` stored from byte `at` on.
pub open spec fn stored(contents: Seq<u8>, at: int, data: Seq<u8>) -> Seq<u8> {
    contents.subrange(0, at) + data + contents.subrange(at + data.len(), contents.len() as int)
}

/// A store of sectors of 512 bytes. What a backend holds is a sequence of
/// bytes; which transfers it serves is for each kind of backend to say, but
/// none serves one that reaches behind its last byte, and one that is not
/// served changes nothing.
pub trait BlkDev {
    /// The bytes that the device holds, the first sector first.
    spec fn contents(&self) -> Seq<u8>;

    /// Whether a device of this kind that holds `contents` serves a transfer
    /// of `len` bytes from the start of sector `sector`.
    spec fn serves(contents: Seq<u8>, sector: int, len: int) -> bool;

    /// Only transfers that lie within the device are served.
    proof fn lemma_serves_what_fits(contents: Seq<u8>, sector: int, len: int)
        ensures
            Self::serves(contents, sector, len) ==> transfer_fits(
                contents.len() as int,
                sector,
                len,
            ),
    ;

    /// The number of whole sectors.
    fn capacity(&self) -> (c: usize)
        ensures
            c == self.contents().len() / 512,
    ;

    /// Fills `buf` with the bytes from the start of sector `sector` on.
    fn read(&self, sector: usize, buf: &mut Vec<u8>) -> (r: Result<(), BlkError>)
        ensures
            r is Ok <==> Self::serves(self.contents(), sector as int, old(buf)@.len() as int),
            r is Ok ==> final(buf)@ == self.contents().subrange(
                sector * 512,
                sector * 512 + old(buf)@.len(),
            ),
            r is Err ==> final(buf)@ == old(buf)@,
    ;

    /// Stores `buf` from the start of sector `sector` on.
    fn write(&mut self, sector: usize, buf: &[u8]) -> (r: Result<(), BlkError>)
        ensures
            r is Ok <==> Self::serves(old(self).contents(), sector as int, buf@.len() as int),
            r is Ok ==> final(self).contents() == stored(old(self).contents(), sector * 512, buf@),
            r is Err ==> final(self).contents() == old(self).contents(),
    ;
}

/// Bytes of a request header: type, a reserved word, and the sector.
pub const BLK_REQ_HEADER_SIZE: usize = 16;

/// One data segment of a request: a buffer in guest memory.
#[derive(Debug, Clone, Copy, PartialEq, Eq, Structural)]
pub struct BlkIov {
    /// Guest-physical address of the buffer.
    pub data_bg: u64,
    /// Bytes of the buffer.
    pub len: u32,
}

/// The bytes of the first `upto` segments of `iov`.
pub open spec fn iov_bytes(iov: Seq<BlkIov>, upto: int) -> int
    decreases upto,
{
    if upto <= 0 {
        0
    } else {
        iov_bytes(iov, upto - 1) + iov[upto - 1].len as int
    }
}

/// What a request holds, as a value of specifications.
pub struct BlkReqView {
    /// The operation: `VIRTIO_BLK_T_IN`, `VIRTIO_BLK_T_OUT`, or another.
    pub req_type: u32,
    /// The header's reserved word.
    pub reserved: u32,
    /// The sector at which the transfer starts.
    pub sector: u64,
    /// Head of the descriptor chain.
    pub desc_chain_head_idx: usize,
    /// The data segments, in the order of the chain.
    pub iov: Seq<BlkIov>,
    /// The bytes of all data segments.
    pub iov_sum_up: usize,
    /// Where the status byte goes: the address of the chain's last
    /// descriptor, where the device may write it.
    pub status_addr: Option<u64>,
}

impl BlkReqView {
    /// The segments add up to the byte count, which a used-ring entry can
    /// report, and the head is a descriptor index.
    pub open spec fn wf(self) -> bool {
        &&& self.iov_sum_up == iov_bytes(self.iov, self.iov.len() as int)
        &&& self.iov_sum_up <= u32::MAX
        &&& self.desc_chain_head_idx <= u16::MAX
    }
}

/// One request of the driver: what its descriptor chain says, gathered by
/// one walk of the chain and dropped when the request has been served.
#[derive(Debug)]
pub struct BlkReqNode {
    req_type: u32,
    reserved: u32,
    sector: u64,
    desc_chain_head_idx: usize,
    iov: Vec<BlkIov>,
    iov_sum_up: usize,
    status_addr: Option<u64>,
}

impl View for BlkReqNode {
    type V = BlkReqView;

    closed spec fn view(&self) -> BlkReqView {
        BlkReqView {
            req_type: self.req_type,
            reserved: self.reserved,
            sector: self.sector,
            desc_chain_head_idx: self.desc_chain_head_idx,
            iov: self.iov@,
            iov_sum_up: self.iov_sum_up,
            status_addr: self.status_addr,
        }
    }
}

impl BlkReqNode {
    #[verifier::type_invariant]
    spec fn inv(self) -> bool {
        self@.wf()
    }

    /// A request of type zero for sector zero, without data or status.
    pub fn default() -> (r: Self)
        ensures
            r@ == (BlkReqView {
                req_type: 0,
                reserved: 0,
                sector: 0,
                desc_chain_head_idx: 0,
                iov: Seq::empty(),
                iov_sum_up: 0,
                status_addr: None,
            }),
    {
        BlkReqNode {
            req_type: 0,
            reserved: 0,
            sector: 0,
            desc_chain_head_idx: 0,
            iov: Vec::new(),
            iov_sum_up: 0,
            status_addr: None,
        }
    }

    /// The operation.
    pub fn req_type(&self) -> (r: u32)
        ensures
            r == self@.req_type,
    {
        self.req_type
    }

    /// The sector at which the transfer starts.
    pub fn sector(&self) -> (r: u64)
        ensures
            r == self@.sector,
    {
        self.sector
    }

    /// Head of the descriptor chain.
    pub fn head(&self) -> (r: usize)
        ensures
            r == self@.desc_chain_head_idx,
    {
        self.desc_chain_head_idx
    }

    /// The number of data segments.
    pub fn segments(&self) -> (r: usize)
        ensures
            r == self@.iov.len(),
    {
        self.iov.len()
    }

    /// Data segment `i`.
    pub fn segment(&self, i: usize) -> (r: Option<BlkIov>)
        ensures
            r == if i < self@.iov.len() {
                Some(self@.iov[i as int])
            } else {
                None
            },
    {
        if i < self.iov.len() {
            Some(self.iov[i])
        } else {
            None
        }
    }

    /// The header's reserved word.
    pub fn reserved(&self) -> (r: u32)
        ensures
            r == self@.reserved,
    {
        self.reserved
    }

    /// The bytes of all data segments: what the segments add up to, and no
    /// more than a used-ring entry can report.
    pub fn data_len(&self) -> (r: usize)
        ensures
            r == self@.iov_sum_up,
            self@.wf(),
    {
        proof {
            use_type_invariant(self);
        }
        self.iov_sum_up
    }

    /// Where the status byte goes, if the driver gave it a place.
    pub fn status_addr(&self) -> (r: Option<u64>)
        ensures
            r == self@.status_addr,
    {
        self.status_addr
    }
}

/// What the walk of a chain's data part yields: the segments, their bytes,
/// and the descriptor that ends the chain.
pub struct ChainTail {
    pub iov: Seq<BlkIov>,
    pub sum: int,
    pub last: VringDesc,
}

/// Walks a chain from descriptor `index` on, with `iov` and `sum` gathered so
/// far. A descriptor that has a successor is a data segment; the one that
/// has none ends the walk. The walk fails where a descriptor cannot be read,
/// where the segments add up to more than 2^32 - 1 bytes, and where the
/// chain does not end within `budget` descriptors.
pub open spec fn walk_segments(
    q: VirtqInner,
    m: Map<u64, u8>,
    index: int,
    budget: nat,
    iov: Seq<BlkIov>,
    sum: int,
) -> Result<ChainTail, GuestProtocolError>
    decreases budget,
{
    if budget == 0 {
        Err(GuestProtocolError::MalformedChain)
    } else {
        match q.desc_in(m, index) {
            Err(e) => Err(e),
            Ok(d) => if !d.has_next() {
                Ok(ChainTail { iov, sum, last: d })
            } else if sum + d.len > u32::MAX {
                Err(GuestProtocolError::RequestTooLarge)
            } else {
                walk_segments(
                    q,
                    m,
                    d.next as int,
                    (budget - 1) as nat,
                    iov.push(BlkIov { data_bg: d.addr, len: d.len }),
                    sum + d.len,
                )
            },
        }
    }
}

/// The request that the chain at `head` describes, as `m` holds it. The
/// first descriptor names the header: it must be at least sixteen bytes
/// long, lie in mapped memory and have a successor. The descriptors that
/// follow are data segments, but for the last one, which is the place of the
/// status byte if the device may write it and it has room for a byte. A
/// chain holds at most as many descriptors as the queue.
pub open spec fn parse_chain(q: VirtqInner, m: Map<u64, u8>, head: int) -> Result<
    BlkReqView,
    GuestProtocolError,
> {
    match q.desc_in(m, head) {
        Err(e) => Err(e),
        Ok(first) => if first.len < BLK_REQ_HEADER_SIZE {
            Err(GuestProtocolError::TruncatedHeader)
        } else if !range_mapped(m, first.addr as int, BLK_REQ_HEADER_SIZE as int) {
            Err(GuestProtocolError::UnmappedAddress)
        } else if !first.has_next() {
            Err(GuestProtocolError::MalformedChain)
        } else {
            let header = read_range(m, first.addr as int, BLK_REQ_HEADER_SIZE as int);
            match walk_segments(
                q,
                m,
                first.next as int,
                (q.desc_table->0.num - 1) as nat,
                Seq::empty(),
                0,
            ) {
                Err(e) => Err(e),
                Ok(tail) => Ok(
                    BlkReqView {
                        req_type: le_u32(header, 0) as u32,
                        reserved: le_u32(header, 4) as u32,
                        sector: le_u64(header, 8) as u64,
                        desc_chain_head_idx: head as usize,
                        iov: tail.iov,
                        iov_sum_up: tail.sum as usize,
                        status_addr: if tail.last.is_writable() && tail.last.len >= 1 {
                            Some(tail.last.addr)
                        } else {
                            None
                        },
                    },
                ),
            }
        },
    }
}

/// The walk adds to the byte count what it adds to the segments.
proof fn lemma_walk_sums(
    q: VirtqInner,
    m: Map<u64, u8>,
    index: int,
    budget: nat,
    iov: Seq<BlkIov>,
    sum: int,
)
    requires
        sum == iov_bytes(iov, iov.len() as int),
        0 <= sum <= u32::MAX,
    ensures
        walk_segments(q, m, index, budget, iov, sum) matches Ok(tail) ==> tail.sum == iov_bytes(
            tail.iov,
            tail.iov.len() as int,
        ) && 0 <= tail.sum <= u32::MAX,
    decreases budget,
{
    if budget > 0 {
        match q.desc_in(m, index) {
            Err(e) => {},
            Ok(d) => {
                if d.has_next() && sum + d.len <= u32::MAX {
                    let more = iov.push(BlkIov { data_bg: d.addr, len: d.len });
                    lemma_iov_bytes_prefix(iov, more, iov.len() as int);
                    lemma_walk_sums(q, m, d.next as int, (budget - 1) as nat, more, sum + d.len);
                }
            },
        }
    }
}

/// Every request that a chain describes is well formed.
pub proof fn lemma_parse_wf(q: VirtqInner, m: Map<u64, u8>, head: int)
    ensures
        parse_chain(q, m, head) matches Ok(req) ==> req.wf() && req.desc_chain_head_idx == head,
{
    if let Ok(first) = q.desc_in(m, head) {
        lemma_walk_sums(
            q,
            m,
            first.next as int,
            (q.desc_table->0.num - 1) as nat,
            Seq::empty(),
            0,
        );
    }
}

/// Segments that agree up to `upto` hold as many bytes up to there.
pub proof fn lemma_iov_bytes_prefix(a: Seq<BlkIov>, b: Seq<BlkIov>, upto: int)
    requires
        upto <= a.len(),
        upto <= b.len(),
        forall|i: int| 0 <= i < upto ==> a[i] == b[i],
    ensures
        iov_bytes(a, upto) == iov_bytes(b, upto),
    decreases upto,
{
    if upto > 0 {
        lemma_iov_bytes_prefix(a, b, upto - 1);
    }
}

/// The bytes of a prefix of the segments do not exceed those of all.
pub proof fn lemma_iov_bytes_monotonic(iov: Seq<BlkIov>, i: int, j: int)
    requires
        0 <= i <= j,
    ensures
        0 <= iov_bytes(iov, i) <= iov_bytes(iov, j),
    decreases j,
{
    if i < j {
        lemma_iov_bytes_monotonic(iov, i, j - 1);
    } else if i > 0 {
        lemma_iov_bytes_monotonic(iov, i - 1, i - 1);
    }
}

impl BlkReqNode {
    /// Walks the descriptor chain at `head` into a request. Every descriptor
    /// and the header are read through `mem` as they are reached.
    #[verifier::loop_isolation(false)]
    pub fn from_chain<M: GuestMemory>(vq: &Virtq, mem: &M, head: usize) -> (r: Result<
        BlkReqNode,
        GuestProtocolError,
    >)
        ensures
            match r {
                Ok(req) => parse_chain(vq@, mem.bytes(), head as int) == Ok::<
                    BlkReqView,
                    GuestProtocolError,
                >(req@),
                Err(e) => parse_chain(vq@, mem.bytes(), head as int) == Err::<
                    BlkReqView,
                    GuestProtocolError,
                >(e),
            },
    {
        let first: VringDesc = match vq.desc_by_index(mem, head) {
            Ok(first) => first,
            Err(e) => {
                return Err(e);
            },
        };
        if (first.desc_len() as usize) < BLK_REQ_HEADER_SIZE {
            return Err(GuestProtocolError::TruncatedHeader);
        }
        let header: Vec<u8> = match mem.read(first.desc_addr(), BLK_REQ_HEADER_SIZE) {
            Some(header) => header,
            None => {
                return Err(GuestProtocolError::UnmappedAddress);
            },
        };
        if !first.desc_has_next() {
            return Err(GuestProtocolError::MalformedChain);
        }
        let num: usize = match vq.state().desc_table {
            Some(table) => table.num as usize,
            None => {
                return Err(GuestProtocolError::QueueNotBound);
            },
        };
        let mut index: usize = first.desc_next_idx() as usize;
        let mut budget: usize = num - 1;
        let mut iov: Vec<BlkIov> = Vec::new();
        let mut sum: usize = 0;
        let ghost whole = walk_segments(
            vq@,
            mem.bytes(),
            index as int,
            budget as nat,
            Seq::empty(),
            0,
        );
        proof {
            lemma_parse_wf(vq@, mem.bytes(), head as int);
        }
        loop
            invariant
                whole == walk_segments(vq@, mem.bytes(), index as int, budget as nat, iov@, sum as int),
                sum <= u32::MAX,
                index <= u16::MAX,
            decreases budget,
        {
            if budget == 0 {
                return Err(GuestProtocolError::MalformedChain);
            }
            let d: VringDesc = match vq.desc_by_index(mem, index) {
                Ok(d) => d,
                Err(e) => {
                    return Err(e);
                },
            };
            if !d.desc_has_next() {
                let status_addr: Option<u64> = if d.desc_is_writable() && d.desc_len() >= 1 {
                    Some(d.desc_addr())
                } else {
                    None
                };
                return Ok(
                    BlkReqNode {
                        req_type: read_u32(header.as_slice(), 0),
                        reserved: read_u32(header.as_slice(), 4),
                        sector: read_u64(header.as_slice(), 8),
                        desc_chain_head_idx: head,
                        iov,
                        iov_sum_up: sum,
                        status_addr,
                    },
                );
            }
            if d.desc_len() as usize > u32::MAX as usize - sum {
                return Err(GuestProtocolError::RequestTooLarge);
            }
            iov.push(BlkIov { data_bg: d.desc_addr(), len: d.desc_len() });
            sum = sum + d.desc_len() as usize;
            index = d.desc_next_idx() as usize;
            budget = budget - 1;
        }
    }
}

/// How far the data of a request has been moved: guest memory and the
/// backend's bytes as the transfer left them, the bytes moved, and whether
/// every segment was moved.
pub struct Transfer {
    pub mem: Map<u64, u8>,
    pub disk: Seq<u8>,
    pub done: int,
    pub ok: bool,
}

/// Moves sectors into the driver's buffers, from segment `i` on: each
/// segment is filled from the sector that follows those of the segment
/// before it. The transfer stops, and has failed, at the first segment that
/// is not mapped or that the backend does not serve.
pub open spec fn read_segments<B: BlkDev>(
    mem: Map<u64, u8>,
    disk: Seq<u8>,
    iov: Seq<BlkIov>,
    i: int,
    sector: int,
    done: int,
) -> Transfer
    decreases iov.len() - i,
{
    if i < 0 || i >= iov.len() {
        Transfer { mem, disk, done, ok: true }
    } else if !range_mapped(mem, iov[i].data_bg as int, iov[i].len as int) || !B::serves(
        disk,
        sector,
        iov[i].len as int,
    ) {
        Transfer { mem, disk, done, ok: false }
    } else {
        read_segments::<B>(
            write_range(
                mem,
                iov[i].data_bg as int,
                disk.subrange(sector * 512, sector * 512 + iov[i].len),
            ),
            disk,
            iov,
            i + 1,
            sector + iov[i].len / 512,
            done + iov[i].len,
        )
    }
}

/// Moves the driver's buffers to sectors, from segment `i` on, as
/// `read_segments` moves them the other way.
pub open spec fn write_segments<B: BlkDev>(
    mem: Map<u64, u8>,
    disk: Seq<u8>,
    iov: Seq<BlkIov>,
    i: int,
    sector: int,
    done: int,
) -> Transfer
    decreases iov.len() - i,
{
    if i < 0 || i >= iov.len() {
        Transfer { mem, disk, done, ok: true }
    } else if !range_mapped(mem, iov[i].data_bg as int, iov[i].len as int) || !B::serves(
        disk,
        sector,
        iov[i].len as int,
    ) {
        Transfer { mem, disk, done, ok: false }
    } else {
        write_segments::<B>(
            mem,
            stored(disk, sector * 512, read_range(mem, iov[i].data_bg as int, iov[i].len as int)),
            iov,
            i + 1,
            sector + iov[i].len / 512,
            done + iov[i].len,
        )
    }
}

/// A read leaves the backend's bytes alone, and moves at most the bytes of
/// its segments.
pub proof fn lemma_read_moves_data<B: BlkDev>(
    mem: Map<u64, u8>,
    disk: Seq<u8>,
    iov: Seq<BlkIov>,
    i: int,
    sector: int,
    done: int,
)
    requires
        0 <= i <= iov.len(),
        done == iov_bytes(iov, i),
    ensures
        read_segments::<B>(mem, disk, iov, i, sector, done).disk == disk,
        0 <= read_segments::<B>(mem, disk, iov, i, sector, done).done <= iov_bytes(
            iov,
            iov.len() as int,
        ),
    decreases iov.len() - i,
{
    lemma_iov_bytes_monotonic(iov, i, iov.len() as int);
    if i < iov.len() && range_mapped(mem, iov[i].data_bg as int, iov[i].len as int) && B::serves(
        disk,
        sector,
        iov[i].len as int,
    ) {
        lemma_read_moves_data::<B>(
            write_range(
                mem,
                iov[i].data_bg as int,
                disk.subrange(sector * 512, sector * 512 + iov[i].len),
            ),
            disk,
            iov,
            i + 1,
            sector + iov[i].len / 512,
            done + iov[i].len,
        );
    }
}

/// A write leaves guest memory alone.
pub proof fn lemma_write_keeps_memory<B: BlkDev>(
    mem: Map<u64, u8>,
    disk: Seq<u8>,
    iov: Seq<BlkIov>,
    i: int,
    sector: int,
    done: int,
)
    requires
        0 <= i <= iov.len(),
    ensures
        write_segments::<B>(mem, disk, iov, i, sector, done).mem == mem,
    decreases iov.len() - i,
{
    if i < iov.len() && range_mapped(mem, iov[i].data_bg as int, iov[i].len as int) && B::serves(
        disk,
        sector,
        iov[i].len as int,
    ) {
        lemma_write_keeps_memory::<B>(
            mem,
            stored(disk, sector * 512, read_range(mem, iov[i].data_bg as int, iov[i].len as int)),
            iov,
            i + 1,
            sector + iov[i].len / 512,
            done + iov[i].len,
        );
    }
}

/// The sector that a transfer has reached, while it is a number that a
/// backend could be handed.
pub open spec fn sector_at(sector: Option<u64>, at: int) -> bool {
    match sector {
        Some(s) => s == at,
        None => at > u64::MAX,
    }
}

/// Fills the data segments of `req` from the backend, through `mem`. The
/// result is the number of bytes moved and whether all were.
pub fn transfer_in<B: BlkDev, M: GuestMemory>(
    dev: &B,
    mem: &mut M,
    req: &BlkReqNode,
) -> (r: (usize, bool))
    ensures
        ({
            let t = read_segments::<B>(
                old(mem).bytes(),
                dev.contents(),
                req@.iov,
                0,
                req@.sector as int,
                0,
            );
            &&& final(mem).bytes() == t.mem
            &&& r.0 == t.done
            &&& r.1 == t.ok
        }),
{
    proof {
        use_type_invariant(req);
    }
    let ghost whole = read_segments::<B>(
        mem.bytes(),
        dev.contents(),
        req@.iov,
        0,
        req@.sector as int,
        0,
    );
    let ghost mut at: int = req@.sector as int;
    let n: usize = req.iov.len();
    let mut sector: Option<u64> = Some(req.sector);
    let mut done: usize = 0;
    let mut ok: bool = true;
    let mut i: usize = 0;
    while i < n && ok
        invariant
            i <= n,
            n == req@.iov.len(),
            req@.wf(),
            sector_at(sector, at),
            0 <= at,
            done == iov_bytes(req@.iov, i as int),
            whole == if ok {
                read_segments::<B>(mem.bytes(), dev.contents(), req@.iov, i as int, at, done as int)
            } else {
                Transfer { mem: mem.bytes(), disk: dev.contents(), done: done as int, ok: false }
            },
        decreases n - i + if ok { 1int } else { 0int },
    {
        let seg: BlkIov = req.iov[i];
        let len: usize = seg.len as usize;
        proof {
            B::lemma_serves_what_fits(dev.contents(), at, len as int);
            lemma_iov_bytes_monotonic(req@.iov, i + 1, n as int);
        }
        let sector_now: Option<usize> = match sector {
            Some(s) => if s > usize::MAX as u64 {
                None
            } else {
                Some(s as usize)
            },
            None => None,
        };
        match (mem.read(seg.data_bg, len), sector_now) {
            (Some(b), Some(s)) => {
                let mut buf: Vec<u8> = b;
                match dev.read(s, &mut buf) {
                    Ok(()) => {
                        let copied: bool = mem.write(seg.data_bg, buf.as_slice());
                        assert(copied);
                        done = done + len;
                        sector = match sector {
                            Some(s) => s.checked_add((len / SECTOR_SIZE) as u64),
                            None => None,
                        };
                        proof {
                            at = at + len / 512;
                        }
                        i = i + 1;
                    },
                    Err(_) => {
                        ok = false;
                    },
                }
            },
            _ => {
                ok = false;
            },
        }
    }
    (done, ok)
}

/// Stores the data segments of `req` to the backend, read through `mem`.
/// The result is the number of bytes moved and whether all were.
pub fn transfer_out<B: BlkDev, M: GuestMemory>(
    dev: &mut B,
    mem: &M,
    req: &BlkReqNode,
) -> (r: (usize, bool))
    ensures
        ({
            let t = write_segments::<B>(
                mem.bytes(),
                old(dev).contents(),
                req@.iov,
                0,
                req@.sector as int,
                0,
            );
            &&& final(dev).contents() == t.disk
            &&& r.0 == t.done
            &&& r.1 == t.ok
        }),
{
    proof {
        use_type_invariant(req);
    }
    let ghost whole = write_segments::<B>(
        mem.bytes(),
        dev.contents(),
        req@.iov,
        0,
        req@.sector as int,
        0,
    );
    let ghost mut at: int = req@.sector as int;
    let n: usize = req.iov.len();
    let mut sector: Option<u64> = Some(req.sector);
    let mut done: usize = 0;
    let mut ok: bool = true;
    let mut i: usize = 0;
    while i < n && ok
        invariant
            i <= n,
            n == req@.iov.len(),
            req@.wf(),
            sector_at(sector, at),
            0 <= at,
            done == iov_bytes(req@.iov, i as int),
            whole == if ok {
                write_segments::<B>(mem.bytes(), dev.contents(), req@.iov, i as int, at, done as int)
            } else {
                Transfer { mem: mem.bytes(), disk: dev.contents(), done: done as int, ok: false }
            },
        decreases n - i + if ok { 1int } else { 0int },
    {
        let seg: BlkIov = req.iov[i];
        let len: usize = seg.len as usize;
        proof {
            B::lemma_serves_what_fits(dev.contents(), at, len as int);
            lemma_iov_bytes_monotonic(req@.iov, i + 1, n as int);
        }
        let sector_now: Option<usize> = match sector {
            Some(s) => if s > usize::MAX as u64 {
                None
            } else {
                Some(s as usize)
            },
            None => None,
        };
        match (mem.read(seg.data_bg, len), sector_now) {
            (Some(buf), Some(s)) => {
                match dev.write(s, buf.as_slice()) {
                    Ok(()) => {
                        done = done + len;
                        sector = match sector {
                            Some(s) => s.checked_add((len / SECTOR_SIZE) as u64),
                            None => None,
                        };
                        proof {
                            at = at + len / 512;
                        }
                        i = i + 1;
                    },
                    Err(_) => {
                        ok = false;
                    },
                }
            },
            _ => {
                ok = false;
            },
        }
    }
    (done, ok)
}

/// The status byte of a request of type `req_type` whose data was moved
/// completely (`ok`) or not: requests that are neither reads nor writes are
/// not supported, whatever `ok` says.
pub open spec fn status_of(req_type: u32, ok: bool) -> u8 {
    if req_type == VIRTIO_BLK_T_IN || req_type == VIRTIO_BLK_T_OUT {
        if ok {
            VIRTIO_BLK_S_OK as u8
        } else {
            VIRTIO_BLK_S_IOERR as u8
        }
    } else {
        VIRTIO_BLK_S_UNSUPP as u8
    }
}

/// The status byte of a request of type `req_type` whose transfer ended as
/// `ok` says.
pub fn completion_status(req_type: u32, ok: bool) -> (r: u8)
    ensures
        r == status_of(req_type, ok),
{
    if req_type as usize == VIRTIO_BLK_T_IN || req_type as usize == VIRTIO_BLK_T_OUT {
        if ok {
            VIRTIO_BLK_S_OK as u8
        } else {
            VIRTIO_BLK_S_IOERR as u8
        }
    } else {
        VIRTIO_BLK_S_UNSUPP as u8
    }
}

/// A request that was served and handed back to the driver.
#[derive(Debug, Clone, Copy, PartialEq, Eq, Structural)]
pub struct Completion {
    /// Head of the request's descriptor chain.
    pub id: u32,
    /// The status byte.
    pub status: u8,
    /// Bytes of data that the device wrote into the driver's buffers.
    pub len: u32,
}

/// What a pass of the dispatcher works on: guest memory, the backend's
/// bytes, and the queue.
pub struct DevState {
    pub mem: Map<u64, u8>,
    pub disk: Seq<u8>,
    pub vq: VirtqInner,
}

/// The data of `req` moved as its type says; a request that is neither a
/// read nor a write moves nothing.
pub open spec fn moved<B: BlkDev>(mem: Map<u64, u8>, disk: Seq<u8>, req: BlkReqView) -> Transfer {
    if req.req_type == VIRTIO_BLK_T_IN {
        read_segments::<B>(mem, disk, req.iov, 0, req.sector as int, 0)
    } else if req.req_type == VIRTIO_BLK_T_OUT {
        write_segments::<B>(mem, disk, req.iov, 0, req.sector as int, 0)
    } else {
        Transfer { mem, disk, done: 0, ok: false }
    }
}

/// How `req` is reported once its data was moved as `t` says: its head, its
/// status, and the bytes that the device wrote into the driver's data
/// buffers, which only a read does.
pub open spec fn completion_of(req: BlkReqView, t: Transfer) -> Completion {
    Completion {
        id: req.desc_chain_head_idx as u32,
        status: status_of(req.req_type, t.ok),
        len: if req.req_type == VIRTIO_BLK_T_IN {
            t.done as u32
        } else {
            0
        },
    }
}

/// `mem` with the status byte stored where the request wants it, if it
/// names a place and the place is mapped.
pub open spec fn with_status(mem: Map<u64, u8>, status_addr: Option<u64>, status: u8) -> Map<
    u64,
    u8,
> {
    match status_addr {
        Some(addr) => if range_mapped(mem, addr as int, 1) {
            write_range(mem, addr as int, seq![status])
        } else {
            mem
        },
        None => mem,
    }
}

/// Serving one request: its data is moved, the status byte stored, and the
/// chain appended to the used ring. Where the used ring cannot take it, the
/// request stays unreported.
pub open spec fn served<B: BlkDev>(s: DevState, req: BlkReqView) -> (
    DevState,
    Result<Completion, GuestProtocolError>,
) {
    let t = moved::<B>(s.mem, s.disk, req);
    let done = completion_of(req, t);
    let mem = with_status(t.mem, req.status_addr, done.status);
    match s.vq.push_error(mem) {
        Some(e) => (DevState { mem, disk: t.disk, vq: s.vq }, Err(e)),
        None => (
            DevState {
                mem: s.vq.pushed_mem(mem, VringUsedElem { id: done.id, len: done.len }),
                disk: t.disk,
                vq: s.vq.after_push(mem),
            },
            Ok(done),
        ),
    }
}

/// Handling the chain at `head`: a chain that breaks the protocol is given
/// up and leaves everything as it was; any other is served.
pub open spec fn processed<B: BlkDev>(s: DevState, head: int) -> (
    DevState,
    Result<Completion, GuestProtocolError>,
) {
    match parse_chain(s.vq, s.mem, head) {
        Err(e) => (s, Err(e)),
        Ok(req) => served::<B>(s, req),
    }
}

/// One pass over the available ring: chains are taken in the order of the
/// ring and handled one by one until none is published any more. So that
/// every pass ends, it also ends when `budget` chains have been taken.
/// `completed` counts those handed back to the driver.
pub open spec fn drained<B: BlkDev>(s: DevState, budget: nat, completed: nat) -> (DevState, nat)
    decreases budget,
{
    if budget == 0 {
        (s, completed)
    } else {
        match s.vq.next_avail(s.mem) {
            None => (s, completed),
            Some(head) => {
                let after = processed::<B>(DevState { vq: s.vq.after_pop(), ..s }, head as int);
                drained::<B>(
                    after.0,
                    (budget - 1) as nat,
                    if after.1 is Ok {
                        completed + 1
                    } else {
                        completed
                    },
                )
            },
        }
    }
}

/// The three views that the registers describe.
#[derive(Debug, Clone, Copy, PartialEq, Eq, Structural)]
pub struct QueueViews {
    pub desc_table: VringDescTable,
    pub avail: VringAvail,
    pub used: VringUsed,
}

/// Where the registers put the queue: it starts at the page that the
/// queue-pfn register names, in pages of the guest's page size, and is laid
/// out by the queue-num and queue-align registers. There is no queue where
/// queue-num is zero or above what the device offers, where no layout exists
/// for it, and where the queue would reach behind the last address.
pub open spec fn queue_views(regs: VirtMmioRegs) -> Option<QueueViews> {
    let base = regs.q_pfn as int * regs.guest_page_size as int;
    let num = regs.q_num as int;
    let align = regs.q_align as int;
    if num == 0 || num > regs.q_num_max || num > u16::MAX {
        None
    } else if layout_error(num, align) is Some {
        None
    } else if base + layout_size(num, align) > u64::MAX {
        None
    } else {
        Some(
            QueueViews {
                desc_table: VringDescTable { addr: base as u64, num: num as u16 },
                avail: VringAvail { addr: (base + desc_table_bytes(num)) as u64, num: num as u16 },
                used: VringUsed {
                    addr: (base + layout_used_offset(num, align)) as u64,
                    num: num as u16,
                },
            },
        )
    }
}

/// Computes the three views that the registers describe.
pub fn bind_views(regs: &VirtMmioRegs) -> (r: Option<QueueViews>)
    ensures
        r == queue_views(*regs),
{
    if regs.q_num == 0 || regs.q_num > regs.q_num_max || regs.q_num > u16::MAX as u32 {
        return None;
    }
    let num: u16 = regs.q_num as u16;
    let layout: VirtQueueLayout = match VirtQueueLayout::new(num, regs.q_align) {
        Ok(layout) => layout,
        Err(_) => {
            return None;
        },
    };
    proof {
        crate::virtio_queue::lemma_layout_regions(num as int, regs.q_align as int);
    }
    assert(regs.q_pfn as int * regs.guest_page_size as int <= u64::MAX) by (nonlinear_arith)
        requires
            regs.q_pfn <= u32::MAX,
            regs.guest_page_size <= u32::MAX,
    ;
    assert(0 <= regs.q_pfn as int * regs.guest_page_size as int) by (nonlinear_arith);
    let base: u64 = regs.q_pfn as u64 * regs.guest_page_size as u64;
    if layout.get_size() as u64 > u64::MAX - base {
        return None;
    }
    Some(
        QueueViews {
            desc_table: VringDescTable { addr: base, num },
            avail: VringAvail { addr: base + layout.get_avail_offset() as u64, num },
            used: VringUsed { addr: base + layout.get_used_offset() as u64, num },
        },
    )
}

/// The queue with the views `v` bound.
pub open spec fn bound(q: VirtqInner, v: QueueViews) -> VirtqInner {
    VirtqInner { desc_table: Some(v.desc_table), avail: Some(v.avail), used: Some(v.used), ..q }
}

/// The most chains that one pass takes: as many as the ring's index can
/// count. A driver can never have more than that pending, so a pass ends
/// earlier than with nothing published only where serving the chains keeps
/// changing the ring's index.
pub const NOTIFY_PASS_LIMIT: usize = 0x1_0000;

/// The state in which the pass of a notification starts: `s` with the views
/// `v` bound.
pub open spec fn pass_start(s: DevState, v: QueueViews) -> DevState {
    DevState { vq: bound(s.vq, v), ..s }
}

/// What a write to the notify register does: the views are bound anew from
/// the registers, and one pass is made over the available ring, which goes
/// on until nothing is published any more. Where the registers describe no
/// queue, nothing is done.
pub open spec fn notified<B: BlkDev>(regs: VirtMmioRegs, s: DevState) -> (DevState, nat) {
    match queue_views(regs) {
        None => (s, 0),
        Some(v) => drained::<B>(pass_start(s, v), NOTIFY_PASS_LIMIT as nat, 0),
    }
}

/// What a read of the register at `offset` yields for a device with the
/// registers `regs` and `capacity` sectors. The device-specific part holds
/// the capacity, eight bytes from its start on; a read at its start yields
/// all of them, a read four bytes further the upper half. Offsets that hold
/// nothing the driver may read yield zero.
pub open spec fn reg_read(regs: VirtMmioRegs, capacity: u64, offset: usize) -> u64 {
    if offset >= VIRTIO_MMIO_CONFIG {
        if offset - VIRTIO_MMIO_CONFIG == VIRTIO_BLK_CONFIG_CAPACITY {
            capacity
        } else if offset - VIRTIO_MMIO_CONFIG == VIRTIO_BLK_CONFIG_CAPACITY + 4 {
            capacity / 0x1_0000_0000
        } else {
            0
        }
    } else if offset == VIRTIO_MMIO_MAGIC_VALUE {
        regs.magic as u64
    } else if offset == VIRTIO_MMIO_VERSION {
        regs.version as u64
    } else if offset == VIRTIO_MMIO_DEVICE_ID {
        regs.device_id as u64
    } else if offset == VIRTIO_MMIO_VENDOR_ID {
        regs.vendor_id as u64
    } else if offset == VIRTIO_MMIO_HOST_FEATURES {
        regs.dev_feature as u64
    } else if offset == VIRTIO_MMIO_QUEUE_NUM_MAX {
        regs.q_num_max as u64
    } else if offset == VIRTIO_MMIO_QUEUE_READY {
        regs.q_ready as u64
    } else if offset == VIRTIO_MMIO_INTERRUPT_STATUS {
        regs.irt_stat as u64
    } else if offset == VIRTIO_MMIO_STATUS {
        regs.dev_stat as u64
    } else {
        0
    }
}

/// The registers after the low 32 bits of `value` were written at `offset`.
/// Offsets that hold nothing the driver may write, the notify register among
/// them, leave the registers as they are.
pub open spec fn reg_write(regs: VirtMmioRegs, offset: usize, value: u64) -> VirtMmioRegs {
    let v = (value % 0x1_0000_0000) as u32;
    if offset == VIRTIO_MMIO_HOST_FEATURES_SEL {
        VirtMmioRegs { dev_feature_sel: v, ..regs }
    } else if offset == VIRTIO_MMIO_GUEST_FEATURES {
        VirtMmioRegs { drv_feature: v, ..regs }
    } else if offset == VIRTIO_MMIO_GUEST_FEATURES_SEL {
        VirtMmioRegs { drv_feature_sel: v, ..regs }
    } else if offset == VIRTIO_MMIO_GUEST_PAGE_SIZE {
        VirtMmioRegs { guest_page_size: v, ..regs }
    } else if offset == VIRTIO_MMIO_QUEUE_SEL {
        VirtMmioRegs { q_sel: v, ..regs }
    } else if offset == VIRTIO_MMIO_QUEUE_NUM {
        VirtMmioRegs { q_num: v, ..regs }
    } else if offset == VIRTIO_MMIO_QUEUE_ALIGN {
        VirtMmioRegs { q_align: v, ..regs }
    } else if offset == VIRTIO_MMIO_QUEUE_PFN {
        VirtMmioRegs { q_pfn: v, ..regs }
    } else if offset == VIRTIO_MMIO_QUEUE_READY {
        VirtMmioRegs { q_ready: v, ..regs }
    } else if offset == VIRTIO_MMIO_INTERRUPT_ACK {
        VirtMmioRegs { irt_ack: v, ..regs }
    } else if offset == VIRTIO_MMIO_STATUS {
        VirtMmioRegs { dev_stat: v, ..regs }
    } else {
        regs
    }
}

/// The registers of one block device. The registers that identify the
/// device hold what they held at first, whatever the driver writes.
pub struct BlkRegFile {
    regs: VirtMmioRegs,
}

impl View for BlkRegFile {
    type V = VirtMmioRegs;

    closed spec fn view(&self) -> VirtMmioRegs {
        self.regs
    }
}

impl BlkRegFile {
    #[verifier::type_invariant]
    spec fn inv(self) -> bool {
        self.regs.identifies(VirtioDeviceType::Block)
    }

    /// The registers of a fresh block device.
    pub fn new() -> (r: Self)
        ensures
            r@ == VirtMmioRegs::initial(VirtioDeviceType::Block),
    {
        Self { regs: VirtMmioRegs::new(VirtioDeviceType::Block) }
    }

    /// All registers.
    pub fn registers(&self) -> (r: VirtMmioRegs)
        ensures
            r == self@,
            r.identifies(VirtioDeviceType::Block),
    {
        proof {
            use_type_invariant(self);
        }
        self.regs
    }

    /// Reads the register at `offset` of a device of `capacity` sectors.
    pub fn read(&self, capacity: u64, offset: usize) -> (r: u64)
        ensures
            r == reg_read(self@, capacity, offset),
            self@.identifies(VirtioDeviceType::Block),
    {
        proof {
            use_type_invariant(self);
        }
        if offset >= VIRTIO_MMIO_CONFIG {
            let at: usize = offset - VIRTIO_MMIO_CONFIG;
            if at == VIRTIO_BLK_CONFIG_CAPACITY {
                capacity
            } else if at == VIRTIO_BLK_CONFIG_CAPACITY + 4 {
                capacity / 0x1_0000_0000
            } else {
                0
            }
        } else if offset == VIRTIO_MMIO_MAGIC_VALUE {
            self.regs.magic as u64
        } else if offset == VIRTIO_MMIO_VERSION {
            self.regs.version as u64
        } else if offset == VIRTIO_MMIO_DEVICE_ID {
            self.regs.device_id as u64
        } else if offset == VIRTIO_MMIO_VENDOR_ID {
            self.regs.vendor_id as u64
        } else if offset == VIRTIO_MMIO_HOST_FEATURES {
            self.regs.dev_feature as u64
        } else if offset == VIRTIO_MMIO_QUEUE_NUM_MAX {
            self.regs.q_num_max as u64
        } else if offset == VIRTIO_MMIO_QUEUE_READY {
            self.regs.q_ready as u64
        } else if offset == VIRTIO_MMIO_INTERRUPT_STATUS {
            self.regs.irt_stat as u64
        } else if offset == VIRTIO_MMIO_STATUS {
            self.regs.dev_stat as u64
        } else {
            0
        }
    }

    /// Stores the low 32 bits of `value` in the register at `offset`, where
    /// the driver may write one there.
    pub fn write(&mut self, offset: usize, value: u64)
        ensures
            final(self)@ == reg_write(old(self)@, offset, value),
    {
        proof {
            use_type_invariant(&*self);
        }
        let v: u32 = (value % 0x1_0000_0000) as u32;
        if offset == VIRTIO_MMIO_HOST_FEATURES_SEL {
            self.regs.dev_feature_sel = v;
        } else if offset == VIRTIO_MMIO_GUEST_FEATURES {
            self.regs.drv_feature = v;
        } else if offset == VIRTIO_MMIO_GUEST_FEATURES_SEL {
            self.regs.drv_feature_sel = v;
        } else if offset == VIRTIO_MMIO_GUEST_PAGE_SIZE {
            self.regs.guest_page_size = v;
        } else if offset == VIRTIO_MMIO_QUEUE_SEL {
            self.regs.q_sel = v;
        } else if offset == VIRTIO_MMIO_QUEUE_NUM {
            self.regs.q_num = v;
        } else if offset == VIRTIO_MMIO_QUEUE_ALIGN {
            self.regs.q_align = v;
        } else if offset == VIRTIO_MMIO_QUEUE_PFN {
            self.regs.q_pfn = v;
        } else if offset == VIRTIO_MMIO_QUEUE_READY {
            self.regs.q_ready = v;
        } else if offset == VIRTIO_MMIO_INTERRUPT_ACK {
            self.regs.irt_ack = v;
        } else if offset == VIRTIO_MMIO_STATUS {
            self.regs.dev_stat = v;
        }
    }
}

/// What the lock of one block device guards: its registers, its backend and
/// its queue.
pub struct VirtBlkInner<B: BlkDev> {
    regs: BlkRegFile,
    dev: B,
    vq: Virtq,
}

impl<B: BlkDev> VirtBlkInner<B> {
    /// The registers.
    pub closed spec fn regs(&self) -> VirtMmioRegs {
        self.regs@
    }

    /// The bytes that the backend holds.
    pub closed spec fn disk(&self) -> Seq<u8> {
        self.dev.contents()
    }

    /// The queue.
    pub closed spec fn queue(&self) -> VirtqInner {
        self.vq@
    }

    /// What a pass of the dispatcher over guest memory `mem` works on.
    pub open spec fn state(&self, mem: Map<u64, u8>) -> DevState {
        DevState { mem, disk: self.disk(), vq: self.queue() }
    }

    /// A block device over the backend `dev`, with fresh registers and an
    /// unbound queue.
    pub fn new(dev: B) -> (r: Self)
        ensures
            r.regs() == VirtMmioRegs::initial(VirtioDeviceType::Block),
            r.disk() == dev.contents(),
            r.queue() == (VirtqInner {
                desc_table: None,
                avail: None,
                used: None,
                last_avail_idx: 0,
                last_used_idx: 0,
            }),
    {
        Self { regs: BlkRegFile::new(), dev, vq: Virtq::default() }
    }

    /// What the magic register reads.
    pub fn magic(&self) -> (r: u32)
        ensures
            r == crate::virtio_mmio::VIRTIO_MAGIC,
            r == self.regs().magic,
    {
        self.regs.registers().magic
    }

    /// All registers. Those that identify the device hold what they held at
    /// first.
    pub fn registers(&self) -> (r: VirtMmioRegs)
        ensures
            r == self.regs(),
            r.identifies(VirtioDeviceType::Block),
    {
        self.regs.registers()
    }

    /// The views and cursors of the queue.
    pub fn queue_state(&self) -> (r: VirtqInner)
        ensures
            r == self.queue(),
    {
        self.vq.state()
    }

    /// The backend.
    pub fn backend(&self) -> (r: &B)
        ensures
            r.contents() == self.disk(),
    {
        &self.dev
    }

    /// Reads the register at `offset`.
    pub fn read(&self, offset: usize) -> (r: u64)
        ensures
            r == reg_read(self.regs(), (self.disk().len() / 512) as u64, offset),
            self.regs().identifies(VirtioDeviceType::Block),
    {
        let capacity: u64 = self.dev.capacity() as u64;
        self.regs.read(capacity, offset)
    }

    /// Writes the low 32 bits of `value` to the register at `offset`. A
    /// write to the notify register stores nothing: it has the device serve
    /// what the driver has published, and the result is the number of chains
    /// that were handed back, for whoever signals the driver. Any other
    /// write leaves guest memory, the backend and the queue alone.
    pub fn write<M: GuestMemory>(
        &mut self,
        mem: &mut M,
        offset: usize,
        value: u64,
    ) -> (completed: usize)
        ensures
            offset == VIRTIO_MMIO_QUEUE_NOTIFY ==> {
                &&& final(self).regs() == old(self).regs()
                &&& (final(self).state(final(mem).bytes()), completed as nat) == notified::<B>(
                    old(self).regs(),
                    old(self).state(old(mem).bytes()),
                )
            },
            offset != VIRTIO_MMIO_QUEUE_NOTIFY ==> {
                &&& final(self).regs() == reg_write(old(self).regs(), offset, value)
                &&& final(self).state(final(mem).bytes()) == old(self).state(old(mem).bytes())
                &&& completed == 0
            },
    {
        if offset == VIRTIO_MMIO_QUEUE_NOTIFY {
            self.notify(mem)
        } else {
            self.regs.write(offset, value);
            0
        }
    }

    /// Serves one request: moves its data, stores its status byte and
    /// appends its chain to the used ring.
    pub fn serve<M: GuestMemory>(&mut self, mem: &mut M, req: &BlkReqNode) -> (r: Result<
        Completion,
        GuestProtocolError,
    >)
        ensures
            final(self).regs() == old(self).regs(),
            (final(self).state(final(mem).bytes()), r) == served::<B>(
                old(self).state(old(mem).bytes()),
                req@,
            ),
    {
        proof {
            use_type_invariant(req);
        }
        let req_type: u32 = req.req_type;
        let mut written: usize = 0;
        let mut ok: bool = false;
        if req_type as usize == VIRTIO_BLK_T_IN {
            proof {
                lemma_read_moves_data::<B>(
                    mem.bytes(),
                    self.dev.contents(),
                    req@.iov,
                    0,
                    req@.sector as int,
                    0,
                );
            }
            let moved_in: (usize, bool) = transfer_in(&self.dev, mem, req);
            written = moved_in.0;
            ok = moved_in.1;
        } else if req_type as usize == VIRTIO_BLK_T_OUT {
            proof {
                lemma_write_keeps_memory::<B>(
                    mem.bytes(),
                    self.dev.contents(),
                    req@.iov,
                    0,
                    req@.sector as int,
                    0,
                );
            }
            let moved_out: (usize, bool) = transfer_out(&mut self.dev, mem, req);
            ok = moved_out.1;
        }
        let status: u8 = completion_status(req_type, ok);
        match req.status_addr {
            Some(addr) => {
                let mut b: Vec<u8> = Vec::new();
                b.push(status);
                assert(b@ =~= seq![status]);
                let _stored: bool = mem.write(addr, b.as_slice());
            },
            None => {},
        }
        let done: Completion = Completion {
            id: req.desc_chain_head_idx as u32,
            status,
            len: written as u32,
        };
        match self.vq.push_used_item(mem, VringUsedElem { id: done.id, len: done.len }) {
            Ok(()) => Ok(done),
            Err(e) => Err(e),
        }
    }

    /// Handles the chain at `head`: walks it into a request and serves that.
    /// A chain that breaks the protocol is given up; nothing has changed
    /// then, and no backend was asked.
    pub fn process_chain<M: GuestMemory>(&mut self, mem: &mut M, head: usize) -> (r: Result<
        Completion,
        GuestProtocolError,
    >)
        ensures
            final(self).regs() == old(self).regs(),
            (final(self).state(final(mem).bytes()), r) == processed::<B>(
                old(self).state(old(mem).bytes()),
                head as int,
            ),
    {
        match BlkReqNode::from_chain(&self.vq, mem, head) {
            Ok(req) => self.serve(mem, &req),
            Err(e) => Err(e),
        }
    }

    /// Serves what the driver has published: binds the queue's views from
    /// the registers, then takes chains off the available ring and handles
    /// them until a pop returns nothing. The result is the number of chains
    /// handed back to the driver.
    ///
    /// The pass ends in any case after `NOTIFY_PASS_LIMIT` chains, which is
    /// more than a driver can have pending; `lemma_notify_drains` says when
    /// the ring is drained at the end. Each chain is handed back in the
    /// slot that the used ring's index names in guest memory, and that
    /// index is then moved on by one (`lemma_push_advances_index`).
    pub fn notify<M: GuestMemory>(&mut self, mem: &mut M) -> (completed: usize)
        ensures
            final(self).regs() == old(self).regs(),
            (final(self).state(final(mem).bytes()), completed as nat) == notified::<B>(
                old(self).regs(),
                old(self).state(old(mem).bytes()),
            ),
    {
        let regs: VirtMmioRegs = self.regs.registers();
        let views: QueueViews = match bind_views(&regs) {
            Some(views) => views,
            None => {
                return 0;
            },
        };
        self.vq.set_desc_table(views.desc_table);
        self.vq.set_avail(views.avail);
        self.vq.set_used(views.used);
        let total: usize = NOTIFY_PASS_LIMIT;
        let ghost whole = notified::<B>(old(self).regs(), old(self).state(old(mem).bytes()));
        let mut budget: usize = total;
        let mut completed: usize = 0;
        let mut more: bool = true;
        while budget > 0 && more
            invariant
                self.regs() == old(self).regs(),
                budget + completed <= total,
                whole == if more {
                    drained::<B>(self.state(mem.bytes()), budget as nat, completed as nat)
                } else {
                    (self.state(mem.bytes()), completed as nat)
                },
            decreases budget + if more { 1int } else { 0int },
        {
            match self.vq.pop_avail_idx(mem) {
                Some(head) => {
                    match self.process_chain(mem, head) {
                        Ok(_) => {
                            completed = completed + 1;
                        },
                        Err(_) => {},
                    }
                    budget = budget - 1;
                },
                None => {
                    more = false;
                },
            }
        }
        completed
    }
}

/// A read of one data segment that is mapped and that the backend serves
/// moves exactly the bytes of that segment, from the request's sector, and
/// is reported as carried out with the segment's length.
pub proof fn lemma_one_segment_read<B: BlkDev>(mem: Map<u64, u8>, disk: Seq<u8>, req: BlkReqView)
    requires
        req.req_type == VIRTIO_BLK_T_IN,
        req.iov.len() == 1,
        range_mapped(mem, req.iov[0].data_bg as int, req.iov[0].len as int),
        B::serves(disk, req.sector as int, req.iov[0].len as int),
    ensures
        moved::<B>(mem, disk, req) == (Transfer {
            mem: write_range(
                mem,
                req.iov[0].data_bg as int,
                disk.subrange(req.sector * 512, req.sector * 512 + req.iov[0].len),
            ),
            disk,
            done: req.iov[0].len as int,
            ok: true,
        }),
        completion_of(req, moved::<B>(mem, disk, req)) == (Completion {
            id: req.desc_chain_head_idx as u32,
            status: VIRTIO_BLK_S_OK as u8,
            len: req.iov[0].len,
        }),
{
    reveal_with_fuel(read_segments, 3);
}

/// A write of one data segment that is mapped and that the backend serves
/// stores exactly the bytes of that segment, at the request's sector, and
/// is reported as carried out; the device has written no data.
pub proof fn lemma_one_segment_write<B: BlkDev>(mem: Map<u64, u8>, disk: Seq<u8>, req: BlkReqView)
    requires
        req.req_type == VIRTIO_BLK_T_OUT,
        req.iov.len() == 1,
        range_mapped(mem, req.iov[0].data_bg as int, req.iov[0].len as int),
        B::serves(disk, req.sector as int, req.iov[0].len as int),
    ensures
        moved::<B>(mem, disk, req) == (Transfer {
            mem,
            disk: stored(
                disk,
                req.sector * 512,
                read_range(mem, req.iov[0].data_bg as int, req.iov[0].len as int),
            ),
            done: req.iov[0].len as int,
            ok: true,
        }),
        completion_of(req, moved::<B>(mem, disk, req)) == (Completion {
            id: req.desc_chain_head_idx as u32,
            status: VIRTIO_BLK_S_OK as u8,
            len: 0,
        }),
{
    reveal_with_fuel(write_segments, 3);
}

/// Handling a chain leaves the queue's views and its cursor into the
/// available ring as they were.
pub proof fn lemma_processed_keeps_queue<B: BlkDev>(s: DevState, head: int)
    ensures
        processed::<B>(s, head).0.vq.desc_table == s.vq.desc_table,
        processed::<B>(s, head).0.vq.avail == s.vq.avail,
        processed::<B>(s, head).0.vq.used == s.vq.used,
        processed::<B>(s, head).0.vq.last_avail_idx == s.vq.last_avail_idx,
{
}

/// The state in which a pass goes on after it took the chain at `head`, and
/// the count of chains handed back so far.
pub open spec fn pass_step<B: BlkDev>(s: DevState, head: u16, completed: nat) -> (DevState, nat) {
    let after = processed::<B>(DevState { vq: s.vq.after_pop(), ..s }, head as int);
    (
        after.0,
        if after.1 is Ok {
            completed + 1
        } else {
            completed
        },
    )
}

/// Whether a pass has taken all that the driver has published.
#[verifier::opaque]
pub open spec fn pass_complete(s: DevState) -> bool {
    s.vq.next_avail(s.mem) is None
}

/// The state after the next published chain was taken and handled.
#[verifier::opaque]
pub open spec fn pass_next<B: BlkDev>(s: DevState) -> DevState {
    pass_step::<B>(s, s.vq.next_avail(s.mem)->0, 0).0
}

/// Where a pass has got to after `budget` chains at most: as `drained`, but
/// without the count.
#[verifier::opaque]
pub open spec fn pass_end<B: BlkDev>(s: DevState, budget: nat) -> DevState {
    drained::<B>(s, budget, 0).0
}

/// What a pass makes of the state does not depend on the count it starts
/// with, and the count it ends with goes up by as much as the one it
/// starts with.
pub proof fn lemma_pass_counts<B: BlkDev>(s: DevState, budget: nat, completed: nat)
    ensures
        drained::<B>(s, budget, completed).0 == pass_end::<B>(s, budget),
        drained::<B>(s, budget, completed).1 == drained::<B>(s, budget, 0).1 + completed,
    decreases budget,
{
    reveal(pass_end);
    if budget > 0 {
        if let Some(head) = s.vq.next_avail(s.mem) {
            let next = pass_step::<B>(s, head, completed);
            let base = pass_step::<B>(s, head, 0);
            lemma_pass_counts::<B>(next.0, (budget - 1) as nat, next.1);
            lemma_pass_counts::<B>(base.0, (budget - 1) as nat, base.1);
        }
    }
}

/// A pass is complete exactly when a pop would return nothing.
pub proof fn lemma_pass_complete(s: DevState)
    ensures
        pass_complete(s) <==> s.vq.next_avail(s.mem) is None,
{
    reveal(pass_complete);
}

/// A pass goes by steps: it stays where nothing is published or the budget
/// is spent, and else goes on from the state after the next chain.
pub proof fn lemma_pass_unfolds<B: BlkDev>(s: DevState, budget: nat)
    ensures
        pass_end::<B>(s, budget) == if budget == 0 || pass_complete(s) {
            s
        } else {
            pass_end::<B>(pass_next::<B>(s), (budget - 1) as nat)
        },
{
    reveal(pass_complete);
    reveal(pass_next);
    reveal(pass_end);
    if budget > 0 {
        if let Some(head) = s.vq.next_avail(s.mem) {
            let next = pass_step::<B>(s, head, 0);
            lemma_pass_counts::<B>(next.0, (budget - 1) as nat, next.1);
        }
    }
}

/// One step of a pass keeps the views and moves the cursor on by one.
pub proof fn lemma_pass_next_queue<B: BlkDev>(s: DevState)
    ensures
        pass_next::<B>(s).vq.desc_table == s.vq.desc_table,
        pass_next::<B>(s).vq.avail == s.vq.avail,
        pass_next::<B>(s).vq.used == s.vq.used,
        pass_next::<B>(s).vq.last_avail_idx == next_idx(s.vq.last_avail_idx),
{
    reveal(pass_next);
    lemma_processed_keeps_queue::<B>(
        DevState { vq: s.vq.after_pop(), ..s },
        s.vq.next_avail(s.mem)->0 as int,
    );
}

/// The cursor that lies `budget` entries behind the cursor that follows
/// `from` lies `budget + 1` entries behind `from`.
proof fn lemma_cursor_steps(from: u16, budget: nat)
    ensures
        (next_idx(from) as int + budget as int) % 0x1_0000 == (from as int + budget as int + 1)
            % 0x1_0000,
{
    if from == 0xffff {
        vstd::arithmetic::div_mod::lemma_mod_add_multiples_vanish(budget as int, 0x1_0000);
    }
}

/// A pass keeps the views of the queue, and it ends either with nothing
/// published any more or with its budget spent: the cursor is then as many
/// entries further as the budget allowed.
pub proof fn lemma_pass_ends<B: BlkDev>(s: DevState, budget: nat)
    ensures
        pass_end::<B>(s, budget).vq.desc_table == s.vq.desc_table,
        pass_end::<B>(s, budget).vq.avail == s.vq.avail,
        pass_end::<B>(s, budget).vq.used == s.vq.used,
        pass_complete(pass_end::<B>(s, budget)) || pass_end::<B>(s, budget).vq.last_avail_idx as int
            == (s.vq.last_avail_idx as int + budget as int) % 0x1_0000,
    decreases budget,
{
    lemma_pass_unfolds::<B>(s, budget);
    if budget > 0 && !pass_complete(s) {
        let next = pass_next::<B>(s);
        lemma_pass_next_queue::<B>(s);
        lemma_pass_ends::<B>(next, (budget - 1) as nat);
        lemma_cursor_steps(s.vq.last_avail_idx, (budget - 1) as nat);
    }
}

/// A chain whose first descriptor is shorter than a request header is given
/// up: guest memory, the backend's bytes and the used ring stay as they
/// were, and the pass goes on with the entry that follows in the ring.
pub proof fn lemma_truncated_header<B: BlkDev>(
    s: DevState,
    head: u16,
    budget: nat,
    completed: nat,
)
    requires
        budget > 0,
        s.vq.next_avail(s.mem) == Some(head),
        s.vq.desc_in(s.mem, head as int) is Ok,
        s.vq.desc_in(s.mem, head as int)->Ok_0.len < BLK_REQ_HEADER_SIZE,
    ensures
        parse_chain(s.vq, s.mem, head as int) == Err::<BlkReqView, GuestProtocolError>(
            GuestProtocolError::TruncatedHeader,
        ),
        processed::<B>(DevState { vq: s.vq.after_pop(), ..s }, head as int) == (
            DevState { vq: s.vq.after_pop(), ..s },
            Err::<Completion, GuestProtocolError>(GuestProtocolError::TruncatedHeader),
        ),
        drained::<B>(s, budget, completed) == drained::<B>(
            DevState { vq: s.vq.after_pop(), ..s },
            (budget - 1) as nat,
            completed,
        ),
{
}

/// Where nothing is published, a pass changes nothing and hands nothing
/// back, whatever its budget.
pub proof fn lemma_idle_pass<B: BlkDev>(s: DevState, budget: nat, completed: nat)
    requires
        pass_complete(s),
    ensures
        drained::<B>(s, budget, completed) == (s, completed),
{
    reveal(pass_complete);
}

/// How many entries the driver has published ahead of the device's cursor,
/// where the ring's index reads `idx`: their difference modulo 2^16.
pub open spec fn pending(idx: u16, cursor: u16) -> int {
    (idx as int - cursor as int) % 0x1_0000
}

/// Taking one entry leaves one entry less pending.
proof fn lemma_pending_steps(idx: u16, cursor: u16)
    requires
        idx != cursor,
    ensures
        0 <= pending(idx, next_idx(cursor)) == pending(idx, cursor) - 1,
{
    if idx > cursor {
        assert(pending(idx, cursor) == idx - cursor);
    } else {
        assert(pending(idx, cursor) == idx - cursor + 0x1_0000);
    }
    if cursor == 0xffff {
        assert(pending(idx, 0) == idx);
    } else if idx > cursor {
        assert(pending(idx, (cursor + 1) as u16) == idx - cursor - 1);
    } else {
        assert(pending(idx, (cursor + 1) as u16) == idx - cursor - 1 + 0x1_0000);
    }
}

/// Whether the index field of the available ring reads the same in every
/// state that a pass of at most `budget` chains from `s` goes through:
/// serving the chains does not change what the driver has published.
pub open spec fn index_stays<B: BlkDev>(s: DevState, budget: nat) -> bool {
    s.vq.avail matches Some(avail) ==> forall|k: nat|
        k <= budget ==> avail.idx_in((#[trigger] pass_end::<B>(s, k)).mem) == avail.idx_in(s.mem)
}

/// A pass whose budget covers what is pending, and that leaves the ring's
/// index alone, ends with nothing published: the ring is drained.
pub proof fn lemma_pass_drains<B: BlkDev>(s: DevState, budget: nat)
    requires
        index_stays::<B>(s, budget),
        s.vq.avail_view() is Some && s.vq.avail_view()->0.idx_in(s.mem) is Some ==> pending(
            s.vq.avail_view()->0.idx_in(s.mem)->0,
            s.vq.last_avail_idx,
        ) <= budget,
    ensures
        pass_complete(pass_end::<B>(s, budget)),
    decreases budget,
{
    lemma_pass_unfolds::<B>(s, budget);
    lemma_pass_complete(s);
    if !pass_complete(s) {
        let avail = s.vq.avail_view()->0;
        let idx = avail.idx_in(s.mem)->0;
        assert(s.vq.avail == Some(avail));
        assert(idx != s.vq.last_avail_idx);
        lemma_pending_steps(idx, s.vq.last_avail_idx);
        let next = pass_next::<B>(s);
        lemma_pass_next_queue::<B>(s);
        assert(next.vq.avail_view() == s.vq.avail_view());
        assert forall|k: nat| k <= budget - 1 implies avail.idx_in(
            (#[trigger] pass_end::<B>(next, k)).mem,
        ) == avail.idx_in(s.mem) by {
            lemma_pass_unfolds::<B>(s, k + 1);
            assert(pass_end::<B>(s, k + 1) == pass_end::<B>(next, k));
        }
        lemma_pass_unfolds::<B>(next, 0);
        assert(pass_end::<B>(next, 0) == next);
        assert(avail.idx_in(next.mem) == avail.idx_in(s.mem));
        lemma_pass_drains::<B>(next, (budget - 1) as nat);
    }
}

/// A notification that follows one that has drained the ring, with the
/// registers as they were and nothing newly published, does nothing: guest
/// memory, the backend's bytes and the queue stay, and no chain is handed
/// back.
pub proof fn lemma_notify_again<B: BlkDev>(regs: VirtMmioRegs, s: DevState)
    ensures
        pass_complete(notified::<B>(regs, s).0) ==> notified::<B>(regs, notified::<B>(regs, s).0)
            == (notified::<B>(regs, s).0, 0nat),
{
    let first = notified::<B>(regs, s).0;
    if pass_complete(first) {
        match queue_views(regs) {
            Some(v) => {
                let start = pass_start(s, v);
                assert(first == pass_end::<B>(start, NOTIFY_PASS_LIMIT as nat)) by {
                    reveal(pass_end);
                }
                lemma_pass_ends::<B>(start, NOTIFY_PASS_LIMIT as nat);
                assert(bound(first.vq, v) == first.vq);
                assert(pass_start(first, v) == first);
                lemma_idle_pass::<B>(first, NOTIFY_PASS_LIMIT as nat, 0);
            },
            None => {},
        }
    }
}

/// A notification drains the ring: where the registers describe a queue and
/// serving the chains leaves the ring's index alone, the device's cursor has
/// reached the ring's index when the write returns, so that a pop returns
/// nothing, and a second notification does nothing.
pub proof fn lemma_notify_drains<B: BlkDev>(regs: VirtMmioRegs, s: DevState)
    requires
        queue_views(regs) is Some,
        index_stays::<B>(pass_start(s, queue_views(regs)->0), NOTIFY_PASS_LIMIT as nat),
    ensures
        pass_complete(notified::<B>(regs, s).0),
        notified::<B>(regs, s).0.vq.next_avail(notified::<B>(regs, s).0.mem) is None,
        notified::<B>(regs, notified::<B>(regs, s).0) == (notified::<B>(regs, s).0, 0nat),
{
    let start = pass_start(s, queue_views(regs)->0);
    assert(notified::<B>(regs, s).0 == pass_end::<B>(start, NOTIFY_PASS_LIMIT as nat)) by {
        reveal(pass_end);
    }
    if start.vq.avail_view() is Some && start.vq.avail_view()->0.idx_in(start.mem) is Some {
        let idx = start.vq.avail_view()->0.idx_in(start.mem)->0;
        assert(pending(idx, start.vq.last_avail_idx) < 0x1_0000);
    }
    lemma_pass_drains::<B>(start, NOTIFY_PASS_LIMIT as nat);
    lemma_pass_complete(notified::<B>(regs, s).0);
    lemma_notify_again::<B>(regs, s);
}

/// Whether the chain at `head` is a request of type `req_type` for sector
/// `sector` with one data segment: a first descriptor that names a mapped
/// header, a second that names the buffer `data`, and a last one that gives
/// the status byte a place at `status`.
pub open spec fn one_segment_chain(
    q: VirtqInner,
    m: Map<u64, u8>,
    head: int,
    req_type: u32,
    sector: u64,
    data: BlkIov,
    status: u64,
) -> bool {
    &&& q.desc_table is Some
    &&& q.desc_table->0.num >= 3
    &&& q.desc_in(m, head) is Ok
    &&& {
        let first = q.desc_in(m, head)->Ok_0;
        let header = read_range(m, first.addr as int, BLK_REQ_HEADER_SIZE as int);
        &&& first.len >= BLK_REQ_HEADER_SIZE
        &&& first.has_next()
        &&& range_mapped(m, first.addr as int, BLK_REQ_HEADER_SIZE as int)
        &&& le_u32(header, 0) == req_type
        &&& le_u64(header, 8) == sector
        &&& q.desc_in(m, first.next as int) is Ok
        &&& {
            let second = q.desc_in(m, first.next as int)->Ok_0;
            &&& second.has_next()
            &&& second.addr == data.data_bg
            &&& second.len == data.len
            &&& q.desc_in(m, second.next as int) is Ok
            &&& {
                let last = q.desc_in(m, second.next as int)->Ok_0;
                &&& !last.has_next()
                &&& last.is_writable()
                &&& last.len >= 1
                &&& last.addr == status
            }
        }
    }
}

/// A chain of a header, one data segment and a status byte is walked into
/// the request it describes.
pub proof fn lemma_one_segment_chain_parses(
    q: VirtqInner,
    m: Map<u64, u8>,
    head: int,
    req_type: u32,
    sector: u64,
    data: BlkIov,
    status: u64,
)
    requires
        one_segment_chain(q, m, head, req_type, sector, data, status),
    ensures
        parse_chain(q, m, head) is Ok,
        parse_chain(q, m, head)->Ok_0.req_type == req_type,
        parse_chain(q, m, head)->Ok_0.sector == sector,
        parse_chain(q, m, head)->Ok_0.desc_chain_head_idx == head,
        parse_chain(q, m, head)->Ok_0.iov == seq![data],
        parse_chain(q, m, head)->Ok_0.status_addr == Some(status),
{
    reveal_with_fuel(walk_segments, 3);
    let first = q.desc_in(m, head)->Ok_0;
    let second = q.desc_in(m, first.next as int)->Ok_0;
    let budget = (q.desc_table->0.num - 1) as nat;
    let walked = walk_segments(q, m, first.next as int, budget, Seq::empty(), 0);
    assert(Seq::<BlkIov>::empty().push(BlkIov { data_bg: second.addr, len: second.len }) =~= seq![
        data,
    ]);
    assert(walked is Ok);
    assert(walked->Ok_0.iov == seq![data]);
}

/// What is published and mapped so that the chain at `head`, a request with
/// one data segment, is served: the chain is the next entry of the
/// available ring, its buffer and its status byte are mapped, the backend
/// serves the transfer, and the used ring can take the chain.
pub open spec fn one_segment_request<B: BlkDev>(
    s: DevState,
    head: u16,
    req_type: u32,
    sector: u64,
    data: BlkIov,
    status: u64,
) -> bool {
    &&& s.vq.next_avail(s.mem) == Some(head)
    &&& one_segment_chain(s.vq, s.mem, head as int, req_type, sector, data, status)
    &&& range_mapped(s.mem, data.data_bg as int, data.len as int)
    &&& B::serves(s.disk, sector as int, data.len as int)
    &&& range_mapped(s.mem, status as int, 1)
    &&& s.vq.push_error(s.mem) is None
}

/// The address of the slot of the used ring that the ring's index names
/// in `s`: where the next chain is handed back.
pub open spec fn used_slot(s: DevState) -> int {
    let used = s.vq.used->0;
    used.addr + 4 + 8 * (used.idx_in(s.mem)->0 as int % used.num as int)
}

/// Whether neither the data buffer (for a read) nor the status byte reaches
/// the index field of the used ring, so that the chain is handed back in the
/// slot that the index names before the request is served.
pub open spec fn used_index_untouched(s: DevState, data: BlkIov, status: u64, is_read: bool) -> bool {
    let at = s.vq.used->0.addr + 2;
    &&& is_read ==> disjoint(data.data_bg as int, data.len as int, at, 2)
    &&& disjoint(status as int, 1, at, 2)
}

/// Whether none of the places that the device writes for a request reaches
/// the index field of the available ring, and none but the push that of the
/// used ring: the data buffer (for a read), the status byte, and the used
/// ring's slot and index field.
pub open spec fn ring_index_untouched(s: DevState, data: BlkIov, status: u64, is_read: bool) -> bool {
    let at = s.vq.avail->0.addr + 2;
    let used = s.vq.used->0;
    &&& used_index_untouched(s, data, status, is_read)
    &&& is_read ==> disjoint(data.data_bg as int, data.len as int, at, 2)
    &&& disjoint(status as int, 1, at, 2)
    &&& disjoint(used_slot(s), 8, at, 2)
    &&& disjoint(used.addr + 2, 2, at, 2)
}

/// The state after the read of one data segment at the cursor of `s` was
/// served: the buffer holds the backend's bytes from the request's sector
/// on, the status byte says that the request was carried out, and the chain
/// is in the used ring, in the slot that the ring's index names, with the
/// length of the buffer.
pub open spec fn read_chain_served(
    s: DevState,
    head: u16,
    sector: u64,
    data: BlkIov,
    status: u64,
) -> DevState {
    let q = s.vq.after_pop();
    let filled = write_range(
        s.mem,
        data.data_bg as int,
        s.disk.subrange(sector * 512, sector * 512 + data.len),
    );
    let reported = write_range(filled, status as int, seq![VIRTIO_BLK_S_OK as u8]);
    DevState {
        mem: q.pushed_mem(reported, VringUsedElem { id: head as u32, len: data.len }),
        disk: s.disk,
        vq: q.after_push(reported),
    }
}

/// The state after the write of one data segment at the cursor of `s` was
/// served: the backend holds the buffer's bytes from the request's sector
/// on, the status byte says that the request was carried out, and the chain
/// is in the used ring, in the slot that the ring's index names, with length
/// zero. The buffer is as it was.
pub open spec fn write_chain_served(
    s: DevState,
    head: u16,
    sector: u64,
    data: BlkIov,
    status: u64,
) -> DevState {
    let q = s.vq.after_pop();
    let reported = write_range(s.mem, status as int, seq![VIRTIO_BLK_S_OK as u8]);
    DevState {
        mem: q.pushed_mem(reported, VringUsedElem { id: head as u32, len: 0 }),
        disk: stored(
            s.disk,
            sector * 512,
            read_range(s.mem, data.data_bg as int, data.len as int),
        ),
        vq: q.after_push(reported),
    }
}

/// The read chain of one data segment is handled as `read_chain_served`
/// says, and handed back as carried out with the buffer's length.
pub proof fn lemma_read_chain_processed<B: BlkDev>(
    s: DevState,
    head: u16,
    sector: u64,
    data: BlkIov,
    status: u64,
)
    requires
        one_segment_request::<B>(s, head, VIRTIO_BLK_T_IN as u32, sector, data, status),
        used_index_untouched(s, data, status, true),
    ensures
        processed::<B>(DevState { vq: s.vq.after_pop(), ..s }, head as int) == (
            read_chain_served(s, head, sector, data, status),
            Ok::<Completion, GuestProtocolError>(
                Completion { id: head as u32, status: VIRTIO_BLK_S_OK as u8, len: data.len },
            ),
        ),
{
    let q = s.vq.after_pop();
    let popped = DevState { vq: q, ..s };
    assert(one_segment_chain(q, s.mem, head as int, VIRTIO_BLK_T_IN as u32, sector, data, status));
    lemma_one_segment_chain_parses(
        q,
        s.mem,
        head as int,
        VIRTIO_BLK_T_IN as u32,
        sector,
        data,
        status,
    );
    let req = parse_chain(q, s.mem, head as int)->Ok_0;
    lemma_one_segment_read::<B>(s.mem, s.disk, req);
    let bytes = s.disk.subrange(sector * 512, sector * 512 + data.len);
    B::lemma_serves_what_fits(s.disk, sector as int, data.len as int);
    let filled = write_range(s.mem, data.data_bg as int, bytes);
    lemma_write_range_reads_back(s.mem, data.data_bg as int, bytes);
    assert(range_mapped(filled, status as int, 1));
    let reported = write_range(filled, status as int, seq![VIRTIO_BLK_S_OK as u8]);
    lemma_write_range_reads_back(filled, status as int, seq![VIRTIO_BLK_S_OK as u8]);
    lemma_write_range_keeps_u16(s.mem, data.data_bg as int, bytes, q.used->0.addr + 2);
    lemma_write_range_keeps_u16(
        filled,
        status as int,
        seq![VIRTIO_BLK_S_OK as u8],
        q.used->0.addr + 2,
    );
    lemma_push_stays_possible(q, s.mem, reported);
    assert(served::<B>(popped, req).0 == read_chain_served(s, head, sector, data, status));
}

/// The write chain of one data segment is handled as `write_chain_served`
/// says, and handed back as carried out with length zero.
pub proof fn lemma_write_chain_processed<B: BlkDev>(
    s: DevState,
    head: u16,
    sector: u64,
    data: BlkIov,
    status: u64,
)
    requires
        one_segment_request::<B>(s, head, VIRTIO_BLK_T_OUT as u32, sector, data, status),
        used_index_untouched(s, data, status, false),
    ensures
        processed::<B>(DevState { vq: s.vq.after_pop(), ..s }, head as int) == (
            write_chain_served(s, head, sector, data, status),
            Ok::<Completion, GuestProtocolError>(
                Completion { id: head as u32, status: VIRTIO_BLK_S_OK as u8, len: 0 },
            ),
        ),
{
    let q = s.vq.after_pop();
    let popped = DevState { vq: q, ..s };
    assert(one_segment_chain(q, s.mem, head as int, VIRTIO_BLK_T_OUT as u32, sector, data, status));
    lemma_one_segment_chain_parses(
        q,
        s.mem,
        head as int,
        VIRTIO_BLK_T_OUT as u32,
        sector,
        data,
        status,
    );
    let req = parse_chain(q, s.mem, head as int)->Ok_0;
    lemma_one_segment_write::<B>(s.mem, s.disk, req);
    let reported = write_range(s.mem, status as int, seq![VIRTIO_BLK_S_OK as u8]);
    lemma_write_range_reads_back(s.mem, status as int, seq![VIRTIO_BLK_S_OK as u8]);
    lemma_write_range_keeps_u16(
        s.mem,
        status as int,
        seq![VIRTIO_BLK_S_OK as u8],
        q.used->0.addr + 2,
    );
    lemma_push_stays_possible(q, s.mem, reported);
    assert(served::<B>(popped, req).0 == write_chain_served(s, head, sector, data, status));
}

/// Where two memories map the same addresses and the used ring's index
/// reads the same in both, the ring can take an element in both or in
/// neither.
proof fn lemma_push_stays_possible(q: VirtqInner, before: Map<u64, u8>, after: Map<u64, u8>)
    requires
        forall|a: u64| before.dom().contains(a) <==> after.dom().contains(a),
        q.used is Some ==> q.used->0.idx_in(after) == q.used->0.idx_in(before),
    ensures
        q.push_error(after) == q.push_error(before),
{
}

/// The index field of the available ring reads after the request at the
/// cursor was served, as a read or as a write, what it read before, where
/// none of the device's writes reaches it.
proof fn lemma_served_keeps_index<B: BlkDev>(
    s: DevState,
    head: u16,
    sector: u64,
    data: BlkIov,
    status: u64,
)
    requires
        s.vq.avail is Some,
        s.vq.used is Some,
    ensures
        ring_index_untouched(s, data, status, true) && sector * 512 + data.len <= s.disk.len()
            ==> s.vq.avail->0.idx_in(read_chain_served(s, head, sector, data, status).mem)
            == s.vq.avail->0.idx_in(s.mem),
        ring_index_untouched(s, data, status, false) ==> s.vq.avail->0.idx_in(
            write_chain_served(s, head, sector, data, status).mem,
        ) == s.vq.avail->0.idx_in(s.mem),
{
    let at = s.vq.avail->0.addr + 2;
    let used = s.vq.used->0;
    let idx = used.idx_in(s.mem)->0;
    let slot = idx as int % used.num as int;
    let ok = seq![VIRTIO_BLK_S_OK as u8];
    if ring_index_untouched(s, data, status, true) && sector * 512 + data.len <= s.disk.len() {
        let bytes = s.disk.subrange(sector * 512, sector * 512 + data.len);
        let elem = VringUsedElem { id: head as u32, len: data.len };
        let filled = write_range(s.mem, data.data_bg as int, bytes);
        let reported = write_range(filled, status as int, ok);
        lemma_write_range_keeps_u16(s.mem, data.data_bg as int, bytes, used.addr + 2);
        lemma_write_range_keeps_u16(filled, status as int, ok, used.addr + 2);
        assert(used.idx_in(reported) == used.idx_in(s.mem));
        let slotted = used.with_elem(reported, slot, elem);
        lemma_write_range_keeps_u16(s.mem, data.data_bg as int, bytes, at);
        lemma_write_range_keeps_u16(filled, status as int, ok, at);
        lemma_write_range_keeps_u16(reported, used.addr + 4 + 8 * slot, elem.bytes(), at);
        lemma_write_range_keeps_u16(
            slotted,
            used.addr + 2,
            crate::wire::u16_le_bytes(next_idx(idx) as int),
            at,
        );
    }
    if ring_index_untouched(s, data, status, false) {
        let elem = VringUsedElem { id: head as u32, len: 0 };
        let reported = write_range(s.mem, status as int, ok);
        lemma_write_range_keeps_u16(s.mem, status as int, ok, used.addr + 2);
        assert(used.idx_in(reported) == used.idx_in(s.mem));
        let slotted = used.with_elem(reported, slot, elem);
        lemma_write_range_keeps_u16(s.mem, status as int, ok, at);
        lemma_write_range_keeps_u16(reported, used.addr + 4 + 8 * slot, elem.bytes(), at);
        lemma_write_range_keeps_u16(
            slotted,
            used.addr + 2,
            crate::wire::u16_le_bytes(next_idx(idx) as int),
            at,
        );
    }
}

/// Whether an address is one of the `n` addresses from `at` on.
pub open spec fn within(a: u64, at: int, n: int) -> bool {
    at <= a < at + n
}

/// Whether the places that the device writes for a request have no address
/// in common with each other or with the data buffer: the buffer, the status
/// byte, and the used ring's index field and the slot that it names.
pub open spec fn writes_apart(s: DevState, data: BlkIov, status: u64) -> bool {
    let used = s.vq.used->0;
    &&& disjoint(data.data_bg as int, data.len as int, status as int, 1)
    &&& disjoint(data.data_bg as int, data.len as int, used_slot(s), 8)
    &&& disjoint(data.data_bg as int, data.len as int, used.addr + 2, 2)
    &&& disjoint(status as int, 1, used_slot(s), 8)
    &&& disjoint(status as int, 1, used.addr + 2, 2)
}

/// What guest memory holds after the read of one data segment was served,
/// where the places written lie apart: the buffer holds the backend's bytes
/// from the request's sector on, the status byte is zero, the used ring's
/// index is one further than it was and the slot that it named holds the
/// chain's head with the buffer's length, and every other byte is as it
/// was.
pub proof fn lemma_read_chain_bytes(s: DevState, head: u16, sector: u64, data: BlkIov, status: u64)
    requires
        range_mapped(s.mem, data.data_bg as int, data.len as int),
        range_mapped(s.mem, status as int, 1),
        s.vq.push_error(s.mem) is None,
        sector * 512 + data.len <= s.disk.len(),
        writes_apart(s, data, status),
    ensures
        ({
            let after = read_chain_served(s, head, sector, data, status);
            let used = s.vq.used->0;
            let idx = used.idx_in(s.mem)->0;
            &&& after.disk == s.disk
            &&& read_range(after.mem, data.data_bg as int, data.len as int) == s.disk.subrange(
                sector * 512,
                sector * 512 + data.len,
            )
            &&& read_range(after.mem, status as int, 1) == seq![VIRTIO_BLK_S_OK as u8]
            &&& used.idx_in(after.mem) == Some(next_idx(idx))
            &&& used.ring_in(after.mem, idx as int % used.num as int) == Some(
                VringUsedElem { id: head as u32, len: data.len },
            )
            &&& after.vq.last_used_idx == next_idx(idx)
            &&& forall|a: u64| s.mem.dom().contains(a) <==> after.mem.dom().contains(a)
            &&& forall|a: u64|
                s.mem.dom().contains(a) && !within(a, data.data_bg as int, data.len as int)
                    && !within(a, status as int, 1) && !within(a, used_slot(s), 8) && !within(
                    a,
                    used.addr + 2,
                    2,
                ) ==> #[trigger] after.mem[a] == s.mem[a]
        }),
{
    let q = s.vq.after_pop();
    let used = s.vq.used->0;
    let idx = used.idx_in(s.mem)->0;
    let slot = idx as int % used.num as int;
    let bytes = s.disk.subrange(sector * 512, sector * 512 + data.len);
    let ok = seq![VIRTIO_BLK_S_OK as u8];
    let elem = VringUsedElem { id: head as u32, len: data.len };
    let filled = write_range(s.mem, data.data_bg as int, bytes);
    let reported = write_range(filled, status as int, ok);
    let after = read_chain_served(s, head, sector, data, status);
    lemma_write_range_reads_back(s.mem, data.data_bg as int, bytes);
    lemma_write_range_reads_back(filled, status as int, ok);
    lemma_write_range_keeps_u16(s.mem, data.data_bg as int, bytes, used.addr + 2);
    lemma_write_range_keeps_u16(filled, status as int, ok, used.addr + 2);
    assert(used.idx_in(reported) == used.idx_in(s.mem));
    let slotted = used.with_elem(reported, slot, elem);
    lemma_push_stays_possible(q, s.mem, reported);
    lemma_push_advances_index(q, reported, elem);
    assert(elem.bytes().len() == 8);
    lemma_write_range_frame(filled, status as int, ok, data.data_bg as int, data.len as int);
    lemma_write_range_frame(
        reported,
        used.addr + 4 + 8 * slot,
        elem.bytes(),
        data.data_bg as int,
        data.len as int,
    );
    lemma_write_range_frame(
        slotted,
        used.addr + 2,
        crate::wire::u16_le_bytes(next_idx(idx) as int),
        data.data_bg as int,
        data.len as int,
    );
    lemma_write_range_frame(reported, used.addr + 4 + 8 * slot, elem.bytes(), status as int, 1);
    lemma_write_range_frame(
        slotted,
        used.addr + 2,
        crate::wire::u16_le_bytes(next_idx(idx) as int),
        status as int,
        1,
    );
    assert(forall|a: u64| s.mem.dom().contains(a) <==> after.mem.dom().contains(a));
}

/// What guest memory and the backend hold after the write of one data
/// segment was served, where the places written lie apart from each other
/// and from the buffer: the backend holds the buffer's bytes from the
/// request's sector on and every other byte as before, the buffer is as it
/// was, the status byte is zero, the used ring's index is one further than
/// it was and the slot that it named holds the chain's head with length
/// zero, and every other byte of guest memory is as it was.
pub proof fn lemma_write_chain_bytes(s: DevState, head: u16, sector: u64, data: BlkIov, status: u64)
    requires
        range_mapped(s.mem, data.data_bg as int, data.len as int),
        range_mapped(s.mem, status as int, 1),
        s.vq.push_error(s.mem) is None,
        sector * 512 + data.len <= s.disk.len(),
        writes_apart(s, data, status),
    ensures
        ({
            let after = write_chain_served(s, head, sector, data, status);
            let used = s.vq.used->0;
            let idx = used.idx_in(s.mem)->0;
            let written = read_range(s.mem, data.data_bg as int, data.len as int);
            &&& after.disk.len() == s.disk.len()
            &&& after.disk.subrange(sector * 512, sector * 512 + data.len) == written
            &&& forall|i: int|
                0 <= i < s.disk.len() && !(sector * 512 <= i < sector * 512 + data.len)
                    ==> #[trigger] after.disk[i] == s.disk[i]
            &&& read_range(after.mem, data.data_bg as int, data.len as int) == written
            &&& read_range(after.mem, status as int, 1) == seq![VIRTIO_BLK_S_OK as u8]
            &&& used.idx_in(after.mem) == Some(next_idx(idx))
            &&& used.ring_in(after.mem, idx as int % used.num as int) == Some(
                VringUsedElem { id: head as u32, len: 0 },
            )
            &&& after.vq.last_used_idx == next_idx(idx)
            &&& forall|a: u64| s.mem.dom().contains(a) <==> after.mem.dom().contains(a)
            &&& forall|a: u64|
                s.mem.dom().contains(a) && !within(a, status as int, 1) && !within(
                    a,
                    used_slot(s),
                    8,
                ) && !within(a, used.addr + 2, 2) ==> #[trigger] after.mem[a] == s.mem[a]
        }),
{
    let q = s.vq.after_pop();
    let used = s.vq.used->0;
    let idx = used.idx_in(s.mem)->0;
    let slot = idx as int % used.num as int;
    let ok = seq![VIRTIO_BLK_S_OK as u8];
    let elem = VringUsedElem { id: head as u32, len: 0 };
    let written = read_range(s.mem, data.data_bg as int, data.len as int);
    let reported = write_range(s.mem, status as int, ok);
    let after = write_chain_served(s, head, sector, data, status);
    lemma_write_range_reads_back(s.mem, status as int, ok);
    lemma_write_range_keeps_u16(s.mem, status as int, ok, used.addr + 2);
    assert(used.idx_in(reported) == used.idx_in(s.mem));
    let slotted = used.with_elem(reported, slot, elem);
    lemma_push_stays_possible(q, s.mem, reported);
    lemma_push_advances_index(q, reported, elem);
    assert(elem.bytes().len() == 8);
    lemma_write_range_frame(s.mem, status as int, ok, data.data_bg as int, data.len as int);
    lemma_write_range_frame(
        reported,
        used.addr + 4 + 8 * slot,
        elem.bytes(),
        data.data_bg as int,
        data.len as int,
    );
    lemma_write_range_frame(
        slotted,
        used.addr + 2,
        crate::wire::u16_le_bytes(next_idx(idx) as int),
        data.data_bg as int,
        data.len as int,
    );
    lemma_write_range_frame(reported, used.addr + 4 + 8 * slot, elem.bytes(), status as int, 1);
    lemma_write_range_frame(
        slotted,
        used.addr + 2,
        crate::wire::u16_le_bytes(next_idx(idx) as int),
        status as int,
        1,
    );
    assert(after.disk.subrange(sector * 512, sector * 512 + data.len) =~= written);
    assert(forall|a: u64| s.mem.dom().contains(a) <==> after.mem.dom().contains(a));
}

/// A pass that finds one read chain of one data segment published, and
/// nothing behind it, serves that chain and ends with the ring drained:
/// one chain is handed back, and the state is as `read_chain_served` says.
pub proof fn lemma_pass_serves_read_chain<B: BlkDev>(
    s: DevState,
    budget: nat,
    completed: nat,
    head: u16,
    sector: u64,
    data: BlkIov,
    status: u64,
)
    requires
        budget > 0,
        one_segment_request::<B>(s, head, VIRTIO_BLK_T_IN as u32, sector, data, status),
        ring_index_untouched(s, data, status, true),
        s.vq.avail->0.idx_in(s.mem) == Some(next_idx(s.vq.last_avail_idx)),
    ensures
        drained::<B>(s, budget, completed) == (
            read_chain_served(s, head, sector, data, status),
            completed + 1,
        ),
        pass_complete(read_chain_served(s, head, sector, data, status)),
{
    let after = read_chain_served(s, head, sector, data, status);
    B::lemma_serves_what_fits(s.disk, sector as int, data.len as int);
    lemma_read_chain_processed::<B>(s, head, sector, data, status);
    lemma_served_keeps_index::<B>(s, head, sector, data, status);
    assert(after.vq.next_avail(after.mem) is None);
    lemma_pass_complete(after);
    lemma_idle_pass::<B>(after, (budget - 1) as nat, completed + 1);
}

/// A pass that finds one write chain of one data segment published, and
/// nothing behind it, serves that chain and ends with the ring drained:
/// one chain is handed back, and the state is as `write_chain_served` says.
pub proof fn lemma_pass_serves_write_chain<B: BlkDev>(
    s: DevState,
    budget: nat,
    completed: nat,
    head: u16,
    sector: u64,
    data: BlkIov,
    status: u64,
)
    requires
        budget > 0,
        one_segment_request::<B>(s, head, VIRTIO_BLK_T_OUT as u32, sector, data, status),
        ring_index_untouched(s, data, status, false),
        s.vq.avail->0.idx_in(s.mem) == Some(next_idx(s.vq.last_avail_idx)),
    ensures
        drained::<B>(s, budget, completed) == (
            write_chain_served(s, head, sector, data, status),
            completed + 1,
        ),
        pass_complete(write_chain_served(s, head, sector, data, status)),
{
    let after = write_chain_served(s, head, sector, data, status);
    lemma_write_chain_processed::<B>(s, head, sector, data, status);
    lemma_served_keeps_index::<B>(s, head, sector, data, status);
    assert(after.vq.next_avail(after.mem) is None);
    lemma_pass_complete(after);
    lemma_idle_pass::<B>(after, (budget - 1) as nat, completed + 1);
}

/// A pass that finds a chain with a header that is too short, then a read
/// chain of one data segment, and nothing behind it, gives the first chain
/// up and serves the second: one chain is handed back, and the ring is
/// drained.
pub proof fn lemma_pass_skips_truncated_header<B: BlkDev>(
    s: DevState,
    budget: nat,
    completed: nat,
    first: u16,
    head: u16,
    sector: u64,
    data: BlkIov,
    status: u64,
)
    requires
        budget > 1,
        s.vq.next_avail(s.mem) == Some(first),
        s.vq.desc_in(s.mem, first as int) is Ok,
        s.vq.desc_in(s.mem, first as int)->Ok_0.len < BLK_REQ_HEADER_SIZE,
        one_segment_request::<B>(
            DevState { vq: s.vq.after_pop(), ..s },
            head,
            VIRTIO_BLK_T_IN as u32,
            sector,
            data,
            status,
        ),
        ring_index_untouched(DevState { vq: s.vq.after_pop(), ..s }, data, status, true),
        s.vq.avail->0.idx_in(s.mem) == Some(next_idx(next_idx(s.vq.last_avail_idx))),
    ensures
        drained::<B>(s, budget, completed) == (
            read_chain_served(DevState { vq: s.vq.after_pop(), ..s }, head, sector, data, status),
            completed + 1,
        ),
        pass_complete(
            read_chain_served(DevState { vq: s.vq.after_pop(), ..s }, head, sector, data, status),
        ),
{
    let next = DevState { vq: s.vq.after_pop(), ..s };
    lemma_truncated_header::<B>(s, first, budget, completed);
    lemma_pass_serves_read_chain::<B>(
        next,
        (budget - 1) as nat,
        completed,
        head,
        sector,
        data,
        status,
    );
}

/// A notification that finds one read chain of one data segment published
/// serves it before the write returns: one chain is handed back, the state
/// is as `read_chain_served` says, and the ring is drained.
pub proof fn lemma_notify_serves_read_chain<B: BlkDev>(
    regs: VirtMmioRegs,
    s: DevState,
    head: u16,
    sector: u64,
    data: BlkIov,
    status: u64,
)
    requires
        queue_views(regs) is Some,
        one_segment_request::<B>(
            pass_start(s, queue_views(regs)->0),
            head,
            VIRTIO_BLK_T_IN as u32,
            sector,
            data,
            status,
        ),
        ring_index_untouched(pass_start(s, queue_views(regs)->0), data, status, true),
        queue_views(regs)->0.avail.idx_in(s.mem) == Some(next_idx(s.vq.last_avail_idx)),
    ensures
        notified::<B>(regs, s) == (
            read_chain_served(pass_start(s, queue_views(regs)->0), head, sector, data, status),
            1nat,
        ),
        pass_complete(notified::<B>(regs, s).0),
{
    lemma_pass_serves_read_chain::<B>(
        pass_start(s, queue_views(regs)->0),
        NOTIFY_PASS_LIMIT as nat,
        0,
        head,
        sector,
        data,
        status,
    );
}

/// A notification that finds one write chain of one data segment published
/// serves it before the write returns: one chain is handed back, the state
/// is as `write_chain_served` says, and the ring is drained.
pub proof fn lemma_notify_serves_write_chain<B: BlkDev>(
    regs: VirtMmioRegs,
    s: DevState,
    head: u16,
    sector: u64,
    data: BlkIov,
    status: u64,
)
    requires
        queue_views(regs) is Some,
        one_segment_request::<B>(
            pass_start(s, queue_views(regs)->0),
            head,
            VIRTIO_BLK_T_OUT as u32,
            sector,
            data,
            status,
        ),
        ring_index_untouched(pass_start(s, queue_views(regs)->0), data, status, false),
        queue_views(regs)->0.avail.idx_in(s.mem) == Some(next_idx(s.vq.last_avail_idx)),
    ensures
        notified::<B>(regs, s) == (
            write_chain_served(pass_start(s, queue_views(regs)->0), head, sector, data, status),
            1nat,
        ),
        pass_complete(notified::<B>(regs, s).0),
{
    lemma_pass_serves_write_chain::<B>(
        pass_start(s, queue_views(regs)->0),
        NOTIFY_PASS_LIMIT as nat,
        0,
        head,
        sector,
        data,
        status,
    );
}

/// A notification that finds a chain with a header that is too short, then
/// a read chain of one data segment, gives the first up and serves the
/// second before the write returns: one chain is handed back, and the ring
/// is drained.
pub proof fn lemma_notify_skips_truncated_header<B: BlkDev>(
    regs: VirtMmioRegs,
    s: DevState,
    first: u16,
    head: u16,
    sector: u64,
    data: BlkIov,
    status: u64,
)
    requires
        queue_views(regs) is Some,
        pass_start(s, queue_views(regs)->0).vq.next_avail(s.mem) == Some(first),
        pass_start(s, queue_views(regs)->0).vq.desc_in(s.mem, first as int) is Ok,
        pass_start(s, queue_views(regs)->0).vq.desc_in(s.mem, first as int)->Ok_0.len
            < BLK_REQ_HEADER_SIZE,
        one_segment_request::<B>(
            DevState { vq: pass_start(s, queue_views(regs)->0).vq.after_pop(), ..s },
            head,
            VIRTIO_BLK_T_IN as u32,
            sector,
            data,
            status,
        ),
        ring_index_untouched(
            DevState { vq: pass_start(s, queue_views(regs)->0).vq.after_pop(), ..s },
            data,
            status,
            true,
        ),
        queue_views(regs)->0.avail.idx_in(s.mem) == Some(
            next_idx(next_idx(s.vq.last_avail_idx)),
        ),
    ensures
        notified::<B>(regs, s) == (
            read_chain_served(
                DevState { vq: pass_start(s, queue_views(regs)->0).vq.after_pop(), ..s },
                head,
                sector,
                data,
                status,
            ),
            1nat,
        ),
        pass_complete(notified::<B>(regs, s).0),
{
    let start = pass_start(s, queue_views(regs)->0);
    assert((DevState { vq: start.vq.after_pop(), ..start }) == (DevState {
        vq: start.vq.after_pop(),
        ..s
    }));
    lemma_pass_skips_truncated_header::<B>(
        start,
        NOTIFY_PASS_LIMIT as nat,
        0,
        first,
        head,
        sector,
        data,
        status,
    );
}

/// Bytes of the in-memory backend of a device that is made without one.
pub const VIRT_BLK_RAM_SIZE: usize = 0x10_0000;

/// What a write to the notify register makes of guest memory `mem`, for a
/// device that holds the registers `regs`, the backend bytes `disk` and the
/// queue `vq`: guest memory after the pass, and the chains handed back.
pub open spec fn notify_outcome<B: BlkDev>(
    regs: VirtMmioRegs,
    mem: Map<u64, u8>,
    disk: Seq<u8>,
    vq: VirtqInner,
) -> (Map<u64, u8>, nat) {
    let after = notified::<B>(regs, DevState { mem, disk, vq });
    (after.0.mem, after.1)
}

/// One virtio block device behind a range of guest-physical addresses. Its
/// registers, its backend and its queue lie behind one lock, which every
/// access holds from its first step to its last.
#[verifier::reject_recursive_types(B)]
pub struct VirtBlk<B: BlkDev> {
    mmio_start: usize,
    mmio_size: usize,
    inner: spin::Mutex<VirtBlkInner<B>>,
}

impl<B: BlkDev> VirtBlk<B> {
    #[verifier::type_invariant]
    spec fn inv(self) -> bool {
        self.mmio_start + self.mmio_size <= usize::MAX
    }

    /// The first address of the device.
    pub closed spec fn start(&self) -> int {
        self.mmio_start as int
    }

    /// Bytes of the device's address range.
    pub closed spec fn size(&self) -> int {
        self.mmio_size as int
    }

    /// A device over the backend `dev`, at `mmio_size` addresses from
    /// `mmio_start` on.
    pub fn with_backend(mmio_start: usize, mmio_size: usize, dev: B) -> (r: Self)
        requires
            mmio_start + mmio_size <= usize::MAX,
        ensures
            r.start() == mmio_start,
            r.size() == mmio_size,
    {
        Self { mmio_start, mmio_size, inner: mutex_new(VirtBlkInner::new(dev)) }
    }

    /// The addresses of the device.
    pub fn mmio_range(&self) -> (r: Range<usize>)
        ensures
            r.start == self.start(),
            r.end == self.start() + self.size(),
    {
        proof {
            use_type_invariant(self);
        }
        self.mmio_start..(self.mmio_start + self.mmio_size)
    }

    /// Reads the register at `offset`, under the lock. What the registers
    /// hold is for the accesses before this one to say; the registers that
    /// identify the device hold what a block device starts with.
    pub fn read(&self, offset: usize) -> (r: u64)
        ensures
            exists|regs: VirtMmioRegs, capacity: u64|
                regs.identifies(VirtioDeviceType::Block) && r == #[trigger] reg_read(
                    regs,
                    capacity,
                    offset,
                ),
    {
        let mut guard = mutex_lock(&self.inner);
        let inner: &mut VirtBlkInner<B> = guard_mut(&mut guard);
        let r: u64 = inner.read(offset);
        assert(r == reg_read(inner.regs(), (inner.disk().len() / 512) as u64, offset));
        r
    }

    /// Writes `value` to the register at `offset`, under the lock. Only a
    /// write to the notify register touches guest memory, and only that one
    /// hands chains back: it makes one pass of the dispatcher over whatever
    /// the device holds when the lock is taken.
    pub fn write<M: GuestMemory>(
        &self,
        mem: &mut M,
        offset: usize,
        value: u64,
    ) -> (completed: usize)
        ensures
            offset != VIRTIO_MMIO_QUEUE_NOTIFY ==> completed == 0 && final(mem).bytes() == old(
                mem,
            ).bytes(),
            offset == VIRTIO_MMIO_QUEUE_NOTIFY ==> exists|
                regs: VirtMmioRegs,
                disk: Seq<u8>,
                vq: VirtqInner,
            |
                (final(mem).bytes(), completed as nat) == #[trigger] notify_outcome::<B>(
                    regs,
                    old(mem).bytes(),
                    disk,
                    vq,
                ),
    {
        let mut guard = mutex_lock(&self.inner);
        let inner: &mut VirtBlkInner<B> = guard_mut(&mut guard);
        let ghost regs = inner.regs();
        let ghost disk = inner.disk();
        let ghost vq = inner.queue();
        let completed: usize = inner.write(mem, offset, value);
        assert(offset == VIRTIO_MMIO_QUEUE_NOTIFY ==> (mem.bytes(), completed as nat)
            == notify_outcome::<B>(regs, old(mem).bytes(), disk, vq));
        completed
    }
}

impl VirtBlk<RamfsDev> {
    /// A device over an in-memory backend of `VIRT_BLK_RAM_SIZE` zero bytes.
    pub fn new(mmio_start: usize, mmio_size: usize) -> (r: Self)
        requires
            mmio_start + mmio_size <= usize::MAX,
        ensures
            r.start() == mmio_start,
            r.size() == mmio_size,
    {
        Self::with_backend(mmio_start, mmio_size, RamfsDev::new(VIRT_BLK_RAM_SIZE))
    }
}

impl<B: BlkDev> MmioDevice for VirtBlk<B> {
    open spec fn mmio(&self) -> (int, int) {
        (self.start(), self.start() + self.size())
    }

    fn mmio_range(&self) -> (r: Range<usize>) {
        VirtBlk::mmio_range(self)
    }

    fn access<M: GuestMemory>(
        &self,
        mem: &mut M,
        offset: usize,
        write: bool,
        value: u64,
    ) -> (r: MmioAccess)
        ensures
            !write ==> {
                &&& r.completed == 0
                &&& final(mem).bytes() == old(mem).bytes()
                &&& exists|regs: VirtMmioRegs, capacity: u64|
                    regs.identifies(VirtioDeviceType::Block) && r.value == #[trigger] reg_read(
                        regs,
                        capacity,
                        offset,
                    )
            },
            write ==> r.value == 0,
            write && offset != VIRTIO_MMIO_QUEUE_NOTIFY ==> r.completed == 0 && final(mem).bytes()
                == old(mem).bytes(),
            write && offset == VIRTIO_MMIO_QUEUE_NOTIFY ==> exists|
                regs: VirtMmioRegs,
                disk: Seq<u8>,
                vq: VirtqInner,
            |
                (final(mem).bytes(), r.completed as nat) == #[trigger] notify_outcome::<B>(
                    regs,
                    old(mem).bytes(),
                    disk,
                    vq,
                ),
    {
        if write {
            MmioAccess { value: 0, completed: self.write(mem, offset, value) }
        } else {
            MmioAccess { value: self.read(offset), completed: 0 }
        }
    }
}

} // verus!
