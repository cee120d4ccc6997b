//! Guest-physical memory as the device sees it: a partial map from addresses
//! to bytes, reached through a translation capability on every access.

use vstd::prelude::*;
use crate::wire::{le_u16, read_u16, u16_le_bytes, push_u16};

verus! {

/// Whether every address of `[addr, addr + len)` is a guest-physical
/// address that `m` maps. An empty range is mapped wherever it starts.
pub open spec fn range_mapped(m: Map<u64, u8>, addr: int, len: int) -> bool {
    &&& len > 0 ==> 0 <= addr && addr + len <= 0x1_0000_0000_0000_0000
    &&& forall|a: u64| addr <= a < addr + len ==> m.dom().contains(a)
}

/// The `len` bytes that `m` holds from `addr` on.
pub open spec fn read_range(m: Map<u64, u8>, addr: int, len: int) -> Seq<u8> {
    Seq::new(len as nat, |i: int| m[(addr + i) as u64])
}

/// `m` with `data` stored from `addr` on; the set of mapped addresses stays.
pub open spec fn write_range(m: Map<u64, u8>, addr: int, data: Seq<u8>) -> Map<u64, u8> {
    Map::new(
        |a: u64| m.dom().contains(a),
        |a: u64|
            if addr <= a < addr + data.len() {
                data[a - addr]
            } else {
                m[a]
            },
    )
}

/// Whether the `n` addresses from `a` on and the `m` addresses from `b` on
/// have none in common.
pub open spec fn disjoint(a: int, n: int, b: int, m: int) -> bool {
    a + n <= b || b + m <= a
}

/// A store maps what was mapped before, and reads back what was stored.
pub proof fn lemma_write_range_reads_back(m: Map<u64, u8>, addr: int, data: Seq<u8>)
    requires
        range_mapped(m, addr, data.len() as int),
    ensures
        forall|a: u64| m.dom().contains(a) <==> write_range(m, addr, data).dom().contains(a),
        read_range(write_range(m, addr, data), addr, data.len() as int) == data,
{
    assert(read_range(write_range(m, addr, data), addr, data.len() as int) =~= data);
}

/// A store leaves every range alone that has no address in common with it:
/// the range is mapped as before, and where it is mapped it reads as before.
pub proof fn lemma_write_range_frame(m: Map<u64, u8>, addr: int, data: Seq<u8>, at: int, len: int)
    requires
        disjoint(addr, data.len() as int, at, len),
        0 <= len,
    ensures
        range_mapped(write_range(m, addr, data), at, len) == range_mapped(m, at, len),
        range_mapped(m, at, len) ==> read_range(write_range(m, addr, data), at, len) == read_range(
            m,
            at,
            len,
        ),
{
    let after = write_range(m, addr, data);
    assert(forall|a: u64| m.dom().contains(a) <==> after.dom().contains(a));
    if range_mapped(m, at, len) {
        let before_bytes = read_range(m, at, len);
        let after_bytes = read_range(after, at, len);
        assert forall|i: int| 0 <= i < len implies #[trigger] after_bytes[i] == before_bytes[i] by {
            let a = (at + i) as u64;
            assert(m.dom().contains(a));
        }
        assert(after_bytes =~= before_bytes);
    }
}

/// A store leaves a `u16` alone that has no address in common with it.
pub proof fn lemma_write_range_keeps_u16(m: Map<u64, u8>, addr: int, data: Seq<u8>, at: int)
    requires
        disjoint(addr, data.len() as int, at, 2),
    ensures
        mem_u16(write_range(m, addr, data), at) == mem_u16(m, at),
{
    lemma_write_range_frame(m, addr, data, at, 2);
}

/// The translation capability of the surrounding virtual machine: every
/// access names a guest-physical range and either reaches all of it or
/// nothing. No result of a translation outlives the call that made it.
pub trait GuestMemory {
    /// The mapped guest-physical addresses and the byte each one holds.
    spec fn bytes(&self) -> Map<u64, u8>;

    /// Copies `len` bytes out of guest memory, or `None` where part of the
    /// range is not mapped.
    fn read(&self, addr: u64, len: usize) -> (r: Option<Vec<u8>>)
        ensures
            r is Some <==> range_mapped(self.bytes(), addr as int, len as int),
            r matches Some(v) ==> v@ == read_range(self.bytes(), addr as int, len as int),
    ;

    /// Stores `data` into guest memory; where part of the range is not
    /// mapped, nothing is stored and the result is `false`.
    fn write(&mut self, addr: u64, data: &[u8]) -> (ok: bool)
        ensures
            ok <==> range_mapped(old(self).bytes(), addr as int, data@.len() as int),
            ok ==> final(self).bytes() == write_range(old(self).bytes(), addr as int, data@),
            !ok ==> final(self).bytes() == old(self).bytes(),
    ;
}

/// The little-endian `u16` that `m` holds at `addr`, where those two bytes
/// are mapped.
pub open spec fn mem_u16(m: Map<u64, u8>, addr: int) -> Option<u16> {
    if range_mapped(m, addr, 2) {
        Some(le_u16(read_range(m, addr, 2), 0) as u16)
    } else {
        None
    }
}

/// Reads a little-endian `u16` at `base + offset`.
pub fn load_u16<M: GuestMemory>(mem: &M, base: u64, offset: u64) -> (r: Option<u16>)
    ensures
        r == mem_u16(mem.bytes(), base + offset),
{
    let addr: u64 = match base.checked_add(offset) {
        Some(addr) => addr,
        None => {
            return None;
        },
    };
    match mem.read(addr, 2) {
        Some(b) => Some(read_u16(b.as_slice(), 0)),
        None => None,
    }
}

/// Stores `v` as a little-endian `u16` at `base + offset`, or nothing where
/// those two bytes are not mapped.
pub fn store_u16<M: GuestMemory>(mem: &mut M, base: u64, offset: u64, v: u16) -> (ok: bool)
    ensures
        ok <==> range_mapped(old(mem).bytes(), base + offset, 2),
        ok ==> final(mem).bytes() == write_range(
            old(mem).bytes(),
            base + offset,
            u16_le_bytes(v as int),
        ),
        !ok ==> final(mem).bytes() == old(mem).bytes(),
{
    let addr: u64 = match base.checked_add(offset) {
        Some(addr) => addr,
        None => {
            return false;
        },
    };
    let mut b: Vec<u8> = Vec::new();
    push_u16(&mut b, v);
    assert(b@ =~= u16_le_bytes(v as int));
    mem.write(addr, b.as_slice())
}

/// A contiguous block of guest RAM that starts at guest-physical `base`.
pub struct GuestRam {
    base: u64,
    ram: Vec<u8>,
}

impl GuestRam {
    /// The guest-physical address of the first byte.
    pub closed spec fn spec_base(&self) -> int {
        self.base as int
    }

    /// The bytes held, first address first.
    pub closed spec fn contents(&self) -> Seq<u8> {
        self.ram@
    }

    /// `size` zero bytes of RAM at guest-physical `base`.
    pub fn new(base: u64, size: usize) -> (r: Self)
        ensures
            r.spec_base() == base,
            r.contents() == Seq::new(size as nat, |i: int| 0u8),
    {
        let ram: Vec<u8> = vec![0u8; size];
        assert(ram@ =~= Seq::new(size as nat, |i: int| 0u8));
        GuestRam { base, ram }
    }

    /// The guest-physical address of the first byte.
    pub fn base(&self) -> (r: u64)
        ensures
            r == self.spec_base(),
    {
        self.base
    }

    /// The number of bytes held.
    pub fn size(&self) -> (r: usize)
        ensures
            r == self.contents().len(),
    {
        self.ram.len()
    }

    /// Where a non-empty range `[addr, addr + len)` starts inside the block,
    /// or `None` where part of it lies outside.
    fn locate(&self, addr: u64, len: usize) -> (r: Option<usize>)
        requires
            len > 0,
        ensures
            r is Some <==> range_mapped(self.bytes(), addr as int, len as int),
            r matches Some(start) ==> start == addr - self.base && start + len <= self.ram@.len() <= usize::MAX,
    {
        let size: usize = self.ram.len();
        if len as u64 - 1 > u64::MAX - addr {
            return None;
        }
        if addr < self.base {
            assert(!self.bytes().dom().contains(addr));
            return None;
        }
        let off: u64 = addr - self.base;
        if off >= size as u64 {
            assert(!self.bytes().dom().contains(addr));
            return None;
        }
        let start: usize = off as usize;
        if len > size - start {
            assert(!self.bytes().dom().contains((self.base + size) as u64));
            return None;
        }
        Some(start)
    }
}

impl GuestMemory for GuestRam {
    open spec fn bytes(&self) -> Map<u64, u8> {
        Map::new(
            |a: u64| self.spec_base() <= a < self.spec_base() + self.contents().len(),
            |a: u64| self.contents()[a - self.spec_base()],
        )
    }

    fn read(&self, addr: u64, len: usize) -> (r: Option<Vec<u8>>) {
        let mut out: Vec<u8> = Vec::new();
        if len == 0 {
            assert(out@ =~= read_range(self.bytes(), addr as int, 0));
            return Some(out);
        }
        let start: usize = match self.locate(addr, len) {
            Some(start) => start,
            None => {
                return None;
            },
        };
        let mut i: usize = 0;
        while i < len
            invariant
                i <= len,
                start + len <= self.ram@.len() <= usize::MAX,
                out@.len() == i,
                forall|k: int| 0 <= k < i ==> out@[k] == self.ram@[start + k],
            decreases len - i,
        {
            out.push(self.ram[start + i]);
            i = i + 1;
        }
        assert(out@ =~= read_range(self.bytes(), addr as int, len as int));
        Some(out)
    }

    fn write(&mut self, addr: u64, data: &[u8]) -> (ok: bool)
        ensures
            final(self).spec_base() == old(self).spec_base(),
            final(self).contents().len() == old(self).contents().len(),
    {
        let len: usize = data.len();
        if len == 0 {
            assert(self.bytes() =~= write_range(self.bytes(), addr as int, data@));
            return true;
        }
        let start: usize = match self.locate(addr, len) {
            Some(start) => start,
            None => {
                return false;
            },
        };
        let mut i: usize = 0;
        while i < len
            invariant
                i <= len,
                len == data@.len(),
                start + len <= self.ram@.len() <= usize::MAX,
                self.base == old(self).base,
                self.ram@.len() == old(self).ram@.len(),
                forall|k: int| 0 <= k < self.ram@.len() ==> self.ram@[k] == if start <= k < start + i {
                    data@[k - start]
                } else {
                    old(self).ram@[k]
                },
            decreases len - i,
        {
            self.ram.set(start + i, data[i]);
            i = i + 1;
        }
        assert(self.bytes() =~= write_range(old(self).bytes(), addr as int, data@));
        true
    }
}

} // verus!
