//! A block backend that keeps its sectors in host memory.

use vstd::prelude::*;
use crate::virtio_blk::{BlkDev, BlkError, transfer_fits, stored, SECTOR_SIZE};

verus! {

/// The backing bytes of a `RamfsDev`.
pub struct RamfsDevInner {
    ram: Vec<u8>,
}

impl View for RamfsDevInner {
    type V = Seq<u8>;

    closed spec fn view(&self) -> Seq<u8> {
        self.ram@
    }
}

impl RamfsDevInner {
    /// `ramsz` bytes, all zero.
    pub fn new(ramsz: usize) -> (r: Self)
        ensures
            r@ == Seq::new(ramsz as nat, |i: int| 0u8),
    {
        let mut ram: Vec<u8> = Vec::new();
        ram.resize(ramsz, 0);
        assert(ram@ =~= Seq::new(ramsz as nat, |i: int| 0u8));
        Self { ram }
    }

    /// Where a transfer of `len` bytes at `sector` starts in the backing
    /// bytes, if it lies inside them.
    fn locate(&self, sector: usize, len: usize) -> (r: Option<usize>)
        ensures
            r is Some <==> transfer_fits(self@.len() as int, sector as int, len as int),
            r matches Some(start) ==> start == sector * 512 && start + len <= self@.len() <= usize::MAX,
    {
        let size: usize = self.ram.len();
        if sector > size / SECTOR_SIZE {
            return None;
        }
        let start: usize = sector * SECTOR_SIZE;
        if len > size - start {
            return None;
        }
        Some(start)
    }
}

/// A block device of a fixed size in host memory.
pub struct RamfsDev {
    inner: RamfsDevInner,
}

impl RamfsDev {
    /// A device of `ramsz` bytes, all zero. Bytes behind the last whole
    /// sector can be transferred, though `capacity` does not count them.
    pub fn new(ramsz: usize) -> (r: Self)
        ensures
            r.contents() == Seq::new(ramsz as nat, |i: int| 0u8),
    {
        Self { inner: RamfsDevInner::new(ramsz) }
    }
}

impl BlkDev for RamfsDev {
    closed spec fn contents(&self) -> Seq<u8> {
        self.inner@
    }

    open spec fn serves(contents: Seq<u8>, sector: int, len: int) -> bool {
        transfer_fits(contents.len() as int, sector, len)
    }

    proof fn lemma_serves_what_fits(contents: Seq<u8>, sector: int, len: int) {
    }

    fn capacity(&self) -> (c: usize) {
        self.inner.ram.len() / SECTOR_SIZE
    }

    fn read(&self, sector: usize, buf: &mut Vec<u8>) -> (r: Result<(), BlkError>)
        ensures
            r is Err ==> r == Err::<(), BlkError>(BlkError::OutOfRange),
    {
        let len: usize = buf.len();
        let start: usize = match self.inner.locate(sector, len) {
            Some(start) => start,
            None => {
                return Err(BlkError::OutOfRange);
            },
        };
        let mut i: usize = 0;
        while i < len
            invariant
                i <= len,
                buf@.len() == len,
                start + len <= self.inner.ram@.len() <= usize::MAX,
                forall|k: int| 0 <= k < i ==> buf@[k] == self.inner.ram@[start + k],
            decreases len - i,
        {
            buf.set(i, self.inner.ram[start + i]);
            i = i + 1;
        }
        assert(buf@ =~= self.contents().subrange(start as int, start + len));
        Ok(())
    }

    fn write(&mut self, sector: usize, buf: &[u8]) -> (r: Result<(), BlkError>)
        ensures
            r is Err ==> r == Err::<(), BlkError>(BlkError::OutOfRange),
    {
        let len: usize = buf.len();
        let start: usize = match self.inner.locate(sector, len) {
            Some(start) => start,
            None => {
                return Err(BlkError::OutOfRange);
            },
        };
        let mut i: usize = 0;
        while i < len
            invariant
                i <= len,
                len == buf@.len(),
                start + len <= self.inner.ram@.len() <= usize::MAX,
                self.inner.ram@.len() == old(self).inner.ram@.len(),
                forall|k: int|
                    0 <= k < self.inner.ram@.len() ==> self.inner.ram@[k] == if start <= k < start + i {
                        buf@[k - start]
                    } else {
                        old(self).inner.ram@[k]
                    },
            decreases len - i,
        {
            self.inner.ram.set(start + i, buf[i]);
            i = i + 1;
        }
        assert(self.contents() =~= stored(old(self).contents(), start as int, buf@));
        Ok(())
    }
}

/// What was written is what is read back: after a transfer that the device
/// serves was stored, a transfer of the same place and length is served
/// again, and it yields the bytes that were stored.
pub proof fn lemma_read_back(contents: Seq<u8>, sector: int, data: Seq<u8>)
    requires
        RamfsDev::serves(contents, sector, data.len() as int),
    ensures
        RamfsDev::serves(stored(contents, sector * 512, data), sector, data.len() as int),
        stored(contents, sector * 512, data).subrange(sector * 512, sector * 512 + data.len())
            == data,
        stored(contents, sector * 512, data).len() == contents.len(),
{
    assert(stored(contents, sector * 512, data).subrange(sector * 512, sector * 512 + data.len())
        =~= data);
}

/// A transfer that reaches behind the last byte is not served.
pub proof fn lemma_beyond_capacity(contents: Seq<u8>, sector: int, len: int)
    requires
        sector * 512 + len > contents.len(),
    ensures
        !RamfsDev::serves(contents, sector, len),
{
}

} // verus!
