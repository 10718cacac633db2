//! Regions of host memory that back guest physical memory: first without a
//! guest address (`ProtoRegion`), then placed at one (`Region`), and the
//! collection of all regions of a guest.
use vstd::prelude::*;
use core::marker::PhantomData;
use crate::memory::perm::{GuestOnly, ReadOnly, ReadWrite, Readable, Writable, WriteOnly};
use crate::mem::PAGE_4KIB;

verus! {

/// Errors of region access.
#[derive(Debug, PartialEq, Eq, Structural, Clone, Copy)]
pub enum RegionError {
    /// The offset lies beyond the region.
    InvalidOffset { offset: usize, max: usize },
    /// The address is not part of the region: the address, the region's start
    /// and its size.
    InvalidAddress { addr: u64, start: u64, size: usize },
    /// No region of the collection holds the address.
    RegionNotFound(u64),
    /// The region holding the address cannot be read by the host.
    NotReadable(u64),
}

/// The smaller of two sizes.
pub open spec fn min_size(a: int, b: int) -> int {
    if a < b {
        a
    } else {
        b
    }
}

/// How many bytes a read or write of `len` bytes at `offset` moves in a
/// region of `capacity` bytes: as many as fit.
pub open spec fn moved(capacity: int, offset: int, len: int) -> int {
    min_size(capacity - offset, len)
}

/// `data` after writing what fits of `buf` at `offset`.
pub open spec fn written(data: Seq<u8>, offset: int, buf: Seq<u8>) -> Seq<u8> {
    let n = moved(data.len() as int, offset, buf.len() as int);
    data.take(offset) + buf.take(n) + data.skip(offset + n)
}

/// `buf` after reading what fits of `data` from `offset` into its start.
pub open spec fn read_into(data: Seq<u8>, offset: int, buf: Seq<u8>) -> Seq<u8> {
    let n = moved(data.len() as int, offset, buf.len() as int);
    data.subrange(offset, offset + n) + buf.skip(n)
}

/// Bytes written into a region at an offset read back from that offset:
/// reading into a buffer as long as the one written fills its start with
/// what was written, and writing keeps the region's size.
pub proof fn law_read_back(data: Seq<u8>, offset: int, buf: Seq<u8>, out: Seq<u8>)
    requires
        0 <= offset <= data.len(),
        out.len() == buf.len(),
    ensures
        written(data, offset, buf).len() == data.len(),
        ({
            let n = moved(data.len() as int, offset, buf.len() as int);
            read_into(written(data, offset, buf), offset, out).take(n) == buf.take(n)
        }),
{
    let n = moved(data.len() as int, offset, buf.len() as int);
    let w = written(data, offset, buf);
    assert(w.len() == data.len());
    assert(read_into(w, offset, out).take(n) =~= buf.take(n));
}

/// Copy what fits of `buf` into `data` at `offset`.
fn write_at(data: &mut Vec<u8>, offset: usize, buf: &[u8]) -> (r: Result<usize, RegionError>)
    ensures
        offset > old(data)@.len() ==> r == Err::<usize, RegionError>(
            RegionError::InvalidOffset { offset, max: old(data)@.len() as usize },
        ) && final(data)@ == old(data)@,
        offset <= old(data)@.len() ==> r == Ok::<usize, RegionError>(
            moved(old(data)@.len() as int, offset as int, buf@.len() as int) as usize,
        ) && final(data)@ == written(old(data)@, offset as int, buf@),
        final(data)@.len() == old(data)@.len(),
{
    let capacity = data.len();
    if offset > capacity {
        return Err(RegionError::InvalidOffset { offset, max: capacity });
    }
    if buf.len() == 0 {
        assert(written(data@, offset as int, buf@) =~= data@);
        return Ok(0);
    }
    let fit = if capacity - offset < buf.len() {
        capacity - offset
    } else {
        buf.len()
    };
    let ghost orig = data@;
    let mut i: usize = 0;
    while i < fit
        invariant
            0 <= i <= fit,
            fit == moved(orig.len() as int, offset as int, buf@.len() as int),
            offset + fit <= orig.len(),
            orig.len() <= usize::MAX,
            fit <= buf@.len(),
            data@.len() == orig.len(),
            forall|k: int|
                0 <= k < data@.len() ==> #[trigger] data@[k] == if offset <= k < offset + i {
                    buf@[k - offset]
                } else {
                    orig[k]
                },
        decreases fit - i,
    {
        data.set(offset + i, buf[i]);
        i = i + 1;
    }
    assert(data@ =~= written(orig, offset as int, buf@));
    Ok(fit)
}

/// Copy what fits of `data`, from `offset` on, into the start of `buf`.
fn read_at(data: &Vec<u8>, offset: usize, buf: &mut [u8]) -> (r: Result<usize, RegionError>)
    ensures
        offset > data@.len() ==> r == Err::<usize, RegionError>(
            RegionError::InvalidOffset { offset, max: data@.len() as usize },
        ) && final(buf)@ == old(buf)@,
        offset <= data@.len() ==> r == Ok::<usize, RegionError>(
            moved(data@.len() as int, offset as int, old(buf)@.len() as int) as usize,
        ) && final(buf)@ == read_into(data@, offset as int, old(buf)@),
{
    let capacity = data.len();
    if offset > capacity {
        return Err(RegionError::InvalidOffset { offset, max: capacity });
    }
    if buf.len() == 0 {
        assert(read_into(data@, offset as int, buf@) =~= buf@);
        return Ok(0);
    }
    let to_copy = if capacity - offset < buf.len() {
        capacity - offset
    } else {
        buf.len()
    };
    let ghost orig = buf@;
    let mut i: usize = 0;
    while i < to_copy
        invariant
            0 <= i <= to_copy,
            to_copy == moved(data@.len() as int, offset as int, orig.len() as int),
            offset + to_copy <= data@.len(),
            data@.len() <= usize::MAX,
            to_copy <= orig.len(),
            buf@.len() == orig.len(),
            forall|k: int|
                0 <= k < buf@.len() ==> #[trigger] buf@[k] == if k < i {
                    data@[offset + k]
                } else {
                    orig[k]
                },
        decreases to_copy - i,
    {
        buf[i] = data[offset + i];
        i = i + 1;
    }
    assert(buf@ =~= read_into(data@, offset as int, orig));
    Ok(to_copy)
}

/// Host memory that is not placed in guest physical memory yet. `P` is the
/// host's access permission.
pub struct ProtoRegion<P> {
    data: Vec<u8>,
    _perm: PhantomData<P>,
}

impl<P> ProtoRegion<P> {
    /// A region spans a positive whole number of pages.
    #[verifier::type_invariant]
    spec fn page_sized(self) -> bool {
        self.data@.len() > 0 && self.data@.len() % 4096 == 0
    }

    /// The region's bytes.
    pub closed spec fn contents(&self) -> Seq<u8> {
        self.data@
    }

    /// A zero-filled region of `capacity` bytes, a whole number of pages.
    pub fn new(capacity: usize) -> (r: ProtoRegion<P>)
        requires
            capacity > 0,
            capacity % 4096 == 0,
        ensures
            r.contents() == Seq::new(capacity as nat, |i: int| 0u8),
    {
        let data: Vec<u8> = vec![0u8; capacity];
        assert(data@ =~= Seq::new(capacity as nat, |i: int| 0u8));
        ProtoRegion { data, _perm: PhantomData }
    }

    /// A region of whole pages holding `data`.
    pub fn with_contents(data: Vec<u8>) -> (r: ProtoRegion<P>)
        requires
            data@.len() > 0,
            data@.len() % 4096 == 0,
        ensures
            r.contents() == data@,
    {
        ProtoRegion { data, _perm: PhantomData }
    }

    /// The size of the region in bytes, a positive whole number of pages.
    pub fn capacity(&self) -> (r: usize)
        ensures
            r == self.contents().len(),
            r > 0,
            r % 4096 == 0,
    {
        proof {
            use_type_invariant(self);
        }
        self.data.len()
    }

    /// Place the region at guest physical address `addr`, which must be
    /// page-aligned.
    pub fn set_guest_addr(self, addr: u64) -> (r: Region<P>)
        requires
            addr % PAGE_4KIB == 0,
        ensures
            r.spec_addr() == addr,
            r.contents() == self.contents(),
    {
        proof {
            use_type_invariant(&self);
        }
        Region { addr, data: self.data, _perm: PhantomData }
    }
}

impl<P: Readable> ProtoRegion<P> {
    /// The region's bytes.
    pub fn as_slice(&self) -> (r: &[u8])
        ensures
            r@ == self.contents(),
    {
        self.data.as_slice()
    }

    /// Read what fits of the region, from `offset` on, into the start of
    /// `buf`; the number of bytes read.
    pub fn read_offset(&self, offset: usize, buf: &mut [u8]) -> (r: Result<usize, RegionError>)
        ensures
            offset > self.contents().len() ==> r == Err::<usize, RegionError>(
                RegionError::InvalidOffset { offset, max: self.contents().len() as usize },
            ) && final(buf)@ == old(buf)@,
            offset <= self.contents().len() ==> r == Ok::<usize, RegionError>(
                moved(self.contents().len() as int, offset as int, old(buf)@.len() as int) as usize,
            ) && final(buf)@ == read_into(self.contents(), offset as int, old(buf)@),
    {
        read_at(&self.data, offset, buf)
    }
}

impl<P: Writable> ProtoRegion<P> {
    /// Write what fits of `buf` into the region at `offset`; the number of
    /// bytes written.
    pub fn write_offset(&mut self, offset: usize, buf: &[u8]) -> (r: Result<usize, RegionError>)
        ensures
            offset > old(self).contents().len() ==> r == Err::<usize, RegionError>(
                RegionError::InvalidOffset { offset, max: old(self).contents().len() as usize },
            ) && final(self).contents() == old(self).contents(),
            offset <= old(self).contents().len() ==> r == Ok::<usize, RegionError>(
                moved(old(self).contents().len() as int, offset as int, buf@.len() as int) as usize,
            ) && final(self).contents() == written(old(self).contents(), offset as int, buf@),
    {
        proof {
            use_type_invariant(&*self);
        }
        // a zero page stands in for the bytes while they are written
        let mut data: Vec<u8> = vec![0u8; 4096];
        std::mem::swap(&mut data, &mut self.data);
        let r = write_at(&mut data, offset, buf);
        self.data = data;
        r
    }
}

/// Host memory placed at a guest physical address. `P` is the host's access
/// permission.
pub struct Region<P> {
    addr: u64,
    data: Vec<u8>,
    _perm: PhantomData<P>,
}

/// `addr` lies in the region that starts at `start` and spans `size` bytes.
pub open spec fn in_region(start: u64, size: int, addr: u64) -> bool {
    start <= addr && addr - start < size
}

impl<P> Region<P> {
    /// A placed region spans a positive whole number of pages and starts at
    /// a page boundary.
    #[verifier::type_invariant]
    spec fn page_sized(self) -> bool {
        self.data@.len() > 0 && self.data@.len() % 4096 == 0 && self.addr % 4096 == 0
    }

    /// The region's bytes.
    pub closed spec fn contents(&self) -> Seq<u8> {
        self.data@
    }

    /// The guest physical address of the region.
    pub closed spec fn spec_addr(&self) -> u64 {
        self.addr
    }

    /// The guest physical address the region is mapped at, a page boundary.
    pub fn addr(&self) -> (r: u64)
        ensures
            r == self.spec_addr(),
            r % 4096 == 0,
    {
        proof {
            use_type_invariant(self);
        }
        self.addr
    }

    /// The size of the region in bytes, a positive whole number of pages.
    pub fn capacity(&self) -> (r: usize)
        ensures
            r == self.contents().len(),
            r > 0,
            r % 4096 == 0,
    {
        proof {
            use_type_invariant(self);
        }
        self.data.len()
    }
}

impl<P: Readable> Region<P> {
    /// The region's bytes.
    pub fn as_slice(&self) -> (r: &[u8])
        ensures
            r@ == self.contents(),
    {
        self.data.as_slice()
    }

    /// Read what fits of the region, from `offset` on, into the start of
    /// `buf`; the number of bytes read.
    pub fn read_offset(&self, offset: usize, buf: &mut [u8]) -> (r: Result<usize, RegionError>)
        ensures
            offset > self.contents().len() ==> r == Err::<usize, RegionError>(
                RegionError::InvalidOffset { offset, max: self.contents().len() as usize },
            ) && final(buf)@ == old(buf)@,
            offset <= self.contents().len() ==> r == Ok::<usize, RegionError>(
                moved(self.contents().len() as int, offset as int, old(buf)@.len() as int) as usize,
            ) && final(buf)@ == read_into(self.contents(), offset as int, old(buf)@),
    {
        read_at(&self.data, offset, buf)
    }

    /// Read what fits of the region, from guest physical address `addr` on,
    /// into the start of `buf`. An address outside the region is an error.
    pub fn read_addr(&self, addr: u64, buf: &mut [u8]) -> (r: Result<usize, RegionError>)
        ensures
            !in_region(self.spec_addr(), self.contents().len() as int, addr) ==> r == Err::<
                usize,
                RegionError,
            >(
                RegionError::InvalidAddress {
                    addr,
                    start: self.spec_addr(),
                    size: self.contents().len() as usize,
                },
            ) && final(buf)@ == old(buf)@,
            in_region(self.spec_addr(), self.contents().len() as int, addr) ==> {
                let offset = addr - self.spec_addr();
                &&& r == Ok::<usize, RegionError>(
                    moved(self.contents().len() as int, offset, old(buf)@.len() as int) as usize,
                )
                &&& final(buf)@ == read_into(self.contents(), offset, old(buf)@)
            },
    {
        let capacity = self.data.len();
        if addr < self.addr || addr - self.addr >= capacity as u64 {
            return Err(RegionError::InvalidAddress { addr, start: self.addr, size: capacity });
        }
        let offset = (addr - self.addr) as usize;
        read_at(&self.data, offset, buf)
    }
}

impl<P: Writable> Region<P> {
    /// Write what fits of `buf` into the region at `offset`; the number of
    /// bytes written.
    pub fn write_offset(&mut self, offset: usize, buf: &[u8]) -> (r: Result<usize, RegionError>)
        ensures
            final(self).spec_addr() == old(self).spec_addr(),
            offset > old(self).contents().len() ==> r == Err::<usize, RegionError>(
                RegionError::InvalidOffset { offset, max: old(self).contents().len() as usize },
            ) && final(self).contents() == old(self).contents(),
            offset <= old(self).contents().len() ==> r == Ok::<usize, RegionError>(
                moved(old(self).contents().len() as int, offset as int, buf@.len() as int) as usize,
            ) && final(self).contents() == written(old(self).contents(), offset as int, buf@),
    {
        proof {
            use_type_invariant(&*self);
        }
        // a zero page stands in for the bytes while they are written
        let mut data: Vec<u8> = vec![0u8; 4096];
        std::mem::swap(&mut data, &mut self.data);
        let r = write_at(&mut data, offset, buf);
        self.data = data;
        r
    }

    /// Write what fits of `buf` into the region from guest physical address
    /// `addr` on. An address outside the region is an error.
    pub fn write_addr(&mut self, addr: u64, buf: &[u8]) -> (r: Result<usize, RegionError>)
        ensures
            final(self).spec_addr() == old(self).spec_addr(),
            !in_region(old(self).spec_addr(), old(self).contents().len() as int, addr) ==> r
                == Err::<usize, RegionError>(
                RegionError::InvalidAddress {
                    addr,
                    start: old(self).spec_addr(),
                    size: old(self).contents().len() as usize,
                },
            ) && final(self).contents() == old(self).contents(),
            in_region(old(self).spec_addr(), old(self).contents().len() as int, addr) ==> {
                let offset = addr - old(self).spec_addr();
                &&& r == Ok::<usize, RegionError>(
                    moved(old(self).contents().len() as int, offset, buf@.len() as int) as usize,
                )
                &&& final(self).contents() == written(old(self).contents(), offset, buf@)
            },
    {
        proof {
            use_type_invariant(&*self);
        }
        let capacity = self.data.len();
        if addr < self.addr || addr - self.addr >= capacity as u64 {
            return Err(RegionError::InvalidAddress { addr, start: self.addr, size: capacity });
        }
        let offset = (addr - self.addr) as usize;
        // a zero page stands in for the bytes while they are written
        let mut data: Vec<u8> = vec![0u8; 4096];
        std::mem::swap(&mut data, &mut self.data);
        let r = write_at(&mut data, offset, buf);
        self.data = data;
        r
    }
}

/// A region of any permission.
pub enum RegionEntry {
    ReadOnly(Region<ReadOnly>),
    WriteOnly(Region<WriteOnly>),
    ReadWrite(Region<ReadWrite>),
    GuestOnly(Region<GuestOnly>),
}

impl RegionEntry {
    pub open spec fn spec_addr(&self) -> u64 {
        match self {
            RegionEntry::ReadOnly(r) => r.spec_addr(),
            RegionEntry::WriteOnly(r) => r.spec_addr(),
            RegionEntry::ReadWrite(r) => r.spec_addr(),
            RegionEntry::GuestOnly(r) => r.spec_addr(),
        }
    }

    pub open spec fn contents(&self) -> Seq<u8> {
        match self {
            RegionEntry::ReadOnly(r) => r.contents(),
            RegionEntry::WriteOnly(r) => r.contents(),
            RegionEntry::ReadWrite(r) => r.contents(),
            RegionEntry::GuestOnly(r) => r.contents(),
        }
    }

    pub open spec fn spec_readable(&self) -> bool {
        self is ReadOnly || self is ReadWrite
    }

    pub open spec fn spec_writeable(&self) -> bool {
        self is WriteOnly || self is ReadWrite
    }

    /// The guest physical address of the region.
    pub fn addr(&self) -> (r: u64)
        ensures
            r == self.spec_addr(),
            r % 4096 == 0,
    {
        match self {
            RegionEntry::ReadOnly(r) => r.addr(),
            RegionEntry::WriteOnly(r) => r.addr(),
            RegionEntry::ReadWrite(r) => r.addr(),
            RegionEntry::GuestOnly(r) => r.addr(),
        }
    }

    /// The size of the region in bytes, a positive whole number of pages.
    pub fn capacity(&self) -> (r: usize)
        ensures
            r == self.contents().len(),
            r > 0,
            r % 4096 == 0,
    {
        match self {
            RegionEntry::ReadOnly(r) => r.capacity(),
            RegionEntry::WriteOnly(r) => r.capacity(),
            RegionEntry::ReadWrite(r) => r.capacity(),
            RegionEntry::GuestOnly(r) => r.capacity(),
        }
    }

    /// The region's bytes, where the host may read them.
    pub fn as_ref(&self) -> (r: Option<&[u8]>)
        ensures
            r is Some == self.spec_readable(),
            r matches Some(s) ==> s@ == self.contents(),
    {
        match self {
            RegionEntry::ReadOnly(r) => Some(r.as_slice()),
            RegionEntry::ReadWrite(r) => Some(r.as_slice()),
            _ => None,
        }
    }

    /// The host may read the region.
    pub fn readable(&self) -> (r: bool)
        ensures
            r == self.spec_readable(),
    {
        match self {
            RegionEntry::ReadOnly(_) | RegionEntry::ReadWrite(_) => true,
            _ => false,
        }
    }

    /// The host may write the region.
    pub fn writeable(&self) -> (r: bool)
        ensures
            r == self.spec_writeable(),
    {
        match self {
            RegionEntry::WriteOnly(_) | RegionEntry::ReadWrite(_) => true,
            _ => false,
        }
    }
}

impl Region<ReadOnly> {
    pub fn into_entry(self) -> (r: RegionEntry)
        ensures
            r == RegionEntry::ReadOnly(self),
    {
        RegionEntry::ReadOnly(self)
    }
}

impl Region<WriteOnly> {
    pub fn into_entry(self) -> (r: RegionEntry)
        ensures
            r == RegionEntry::WriteOnly(self),
    {
        RegionEntry::WriteOnly(self)
    }
}

impl Region<ReadWrite> {
    pub fn into_entry(self) -> (r: RegionEntry)
        ensures
            r == RegionEntry::ReadWrite(self),
    {
        RegionEntry::ReadWrite(self)
    }
}

impl Region<GuestOnly> {
    pub fn into_entry(self) -> (r: RegionEntry)
        ensures
            r == RegionEntry::GuestOnly(self),
    {
        RegionEntry::GuestOnly(self)
    }
}

/// The regions of a guest, each with the range of guest physical addresses
/// it covers.
pub struct RegionCollection {
    inner: Vec<(u64, u64, RegionEntry)>,
}

/// Entry `i` of `s` covers `addr`.
pub open spec fn covers(s: Seq<(u64, u64, RegionEntry)>, i: int, addr: u64) -> bool {
    s[i].0 <= addr < s[i].1
}

/// The index of the first entry of `s` that covers `addr`, or -1.
pub open spec fn first_cover(s: Seq<(u64, u64, RegionEntry)>, addr: u64) -> int
    decreases s.len(),
{
    if s.len() == 0 {
        -1
    } else {
        let f = first_cover(s.drop_last(), addr);
        if f >= 0 {
            f
        } else if covers(s, s.len() - 1, addr) {
            s.len() - 1
        } else {
            -1
        }
    }
}

/// Each entry covers exactly the addresses of its region.
pub open spec fn ranges_match(s: Seq<(u64, u64, RegionEntry)>) -> bool {
    forall|i: int|
        0 <= i < s.len() ==> (#[trigger] s[i]).0 == s[i].2.spec_addr() && s[i].1 == s[i].0
            + s[i].2.contents().len()
}

/// Reading `requested` bytes of guest physical memory from `current` on:
/// from the first region covering `current`, as many bytes as it holds from
/// there, then on from the address after them.
pub open spec fn dump_from(s: Seq<(u64, u64, RegionEntry)>, current: u64, requested: nat) -> Result<
    Seq<u8>,
    RegionError,
>
    decreases requested,
{
    if requested == 0 {
        Ok(seq![])
    } else {
        let i = first_cover(s, current);
        if i < 0 {
            Err(RegionError::RegionNotFound(current))
        } else if !s[i].2.spec_readable() {
            Err(RegionError::NotReadable(current))
        } else {
            let data = s[i].2.contents();
            let off = current - s[i].0;
            let n = min_size(data.len() - off, requested as int);
            if n <= 0 || current + n > u64::MAX {
                Ok(seq![])
            } else {
                match dump_from(s, (current + n) as u64, (requested - n) as nat) {
                    Ok(rest) => Ok(data.subrange(off, off + n) + rest),
                    Err(e) => Err(e),
                }
            }
        }
    }
}

proof fn lemma_first_cover(s: Seq<(u64, u64, RegionEntry)>, addr: u64)
    ensures
        -1 <= first_cover(s, addr) < s.len(),
        first_cover(s, addr) >= 0 ==> covers(s, first_cover(s, addr), addr),
        first_cover(s, addr) >= 0 ==> forall|j: int|
            0 <= j < first_cover(s, addr) ==> !covers(s, j, addr),
        first_cover(s, addr) < 0 ==> forall|j: int| 0 <= j < s.len() ==> !covers(s, j, addr),
    decreases s.len(),
{
    if s.len() > 0 {
        lemma_first_cover(s.drop_last(), addr);
        assert forall|j: int| 0 <= j < s.len() - 1 implies covers(s.drop_last(), j, addr) == covers(
            s,
            j,
            addr,
        ) by {}
    }
}

impl RegionCollection {
    /// The regions with their address ranges, in the order they were added.
    pub closed spec fn view(&self) -> Seq<(u64, u64, RegionEntry)> {
        self.inner@
    }

    /// Each region covers exactly its own addresses.
    pub open spec fn wf(&self) -> bool {
        ranges_match(self@)
    }

    /// An empty collection.
    pub fn new() -> (r: RegionCollection)
        ensures
            r@.len() == 0,
            r.wf(),
    {
        RegionCollection { inner: Vec::new() }
    }

    /// Add a region; it covers the addresses from its start up to its end.
    pub fn push(&mut self, entry: RegionEntry)
        requires
            entry.spec_addr() + entry.contents().len() <= u64::MAX,
        ensures
            final(self)@ == old(self)@.push(
                (entry.spec_addr(), (entry.spec_addr() + entry.contents().len()) as u64, entry),
            ),
            old(self).wf() ==> final(self).wf(),
    {
        let start = entry.addr();
        let end = start + entry.capacity() as u64;
        self.inner.push((start, end, entry));
    }

    /// The first region that covers guest physical address `addr`.
    pub fn get(&self, addr: u64) -> (r: Option<&RegionEntry>)
        ensures
            r is None <==> first_cover(self@, addr) < 0,
            r matches Some(e) ==> *e == self@[first_cover(self@, addr)].2,
    {
        proof {
            lemma_first_cover(self@, addr);
        }
        let mut i: usize = 0;
        while i < self.inner.len()
            invariant
                0 <= i <= self@.len(),
                forall|j: int| 0 <= j < i ==> !covers(self@, j, addr),
                -1 <= first_cover(self@, addr) < self@.len(),
                first_cover(self@, addr) >= 0 ==> covers(self@, first_cover(self@, addr), addr),
                first_cover(self@, addr) >= 0 ==> forall|j: int|
                    0 <= j < first_cover(self@, addr) ==> !covers(self@, j, addr),
                first_cover(self@, addr) < 0 ==> forall|j: int|
                    0 <= j < self@.len() ==> !covers(self@, j, addr),
            decreases self@.len() - i,
        {
            let (start, end, _) = &self.inner[i];
            if *start <= addr && addr < *end {
                assert(covers(self@, i as int, addr));
                return Some(&self.inner[i].2);
            }
            i = i + 1;
        }
        None
    }

    /// Move all regions of `other` to the end of this collection.
    pub fn append(&mut self, other: &mut RegionCollection)
        ensures
            final(self)@ == old(self)@ + old(other)@,
            final(other)@.len() == 0,
            old(self).wf() && old(other).wf() ==> final(self).wf(),
    {
        self.inner.append(&mut other.inner);
        proof {
            let a = old(self)@;
            let b = old(other)@;
            if ranges_match(a) && ranges_match(b) {
                assert forall|i: int| 0 <= i < self@.len() implies (#[trigger] self@[i]).0
                    == self@[i].2.spec_addr() && self@[i].1 == self@[i].0
                    + self@[i].2.contents().len() by {
                    if i < a.len() {
                        assert(self@[i] == a[i]);
                    } else {
                        assert(self@[i] == b[i - a.len()]);
                    }
                }
            }
        }
    }

    /// The number of regions.
    pub fn len(&self) -> (r: usize)
        ensures
            r == self@.len(),
    {
        self.inner.len()
    }

    /// The regions with their address ranges.
    pub fn as_slice(&self) -> (r: &[(u64, u64, RegionEntry)])
        ensures
            r@ == self@,
    {
        self.inner.as_slice()
    }

    /// Take the regions out of the collection, in order.
    pub fn into_entries(self) -> (r: Vec<(u64, u64, RegionEntry)>)
        ensures
            r@ == self@,
    {
        self.inner
    }

    /// The `size` bytes of guest physical memory from `start` on, read from
    /// the regions that hold them (see `dump_from`). An address that no
    /// region holds, or that only an unreadable region holds, ends the read
    /// with an error.
    pub fn dump(&self, start: u64, size: usize) -> (r: Result<Vec<u8>, RegionError>)
        requires
            self.wf(),
        ensures
            match dump_from(self@, start, size as nat) {
                Ok(bytes) => r matches Ok(v) && v@ == bytes,
                Err(e) => r == Err::<Vec<u8>, RegionError>(e),
            },
    {
        let mut out: Vec<u8> = Vec::new();
        let mut current = start;
        let mut requested = size;
        while requested > 0
            invariant
                self.wf(),
                dump_from(self@, start, size as nat) == match dump_from(
                    self@,
                    current,
                    requested as nat,
                ) {
                    Ok(rest) => Ok(out@ + rest),
                    Err(e) => Err::<Seq<u8>, RegionError>(e),
                },
            decreases requested,
        {
            proof {
                lemma_first_cover(self@, current);
            }
            let reg = match self.get(current) {
                Some(r) => r,
                None => {
                    return Err(RegionError::RegionNotFound(current));
                },
            };
            let slice = match reg.as_ref() {
                Some(s) => s,
                None => {
                    return Err(RegionError::NotReadable(current));
                },
            };
            let ghost i = first_cover(self@, current);
            assert(self@[i].0 == reg.spec_addr());
            assert(covers(self@, i, current));
            assert(self@[i].1 == self@[i].0 + reg.contents().len());
            let offset = (current - reg.addr()) as usize;
            let n = if slice.len() - offset < requested {
                slice.len() - offset
            } else {
                requested
            };
            let ghost before = out@;
            let mut k: usize = 0;
            while k < n
                invariant
                    0 <= k <= n,
                    offset + n <= slice@.len(),
                    slice@.len() <= usize::MAX,
                    out@ == before + slice@.subrange(offset as int, offset + k),
                decreases n - k,
            {
                out.push(slice[offset + k]);
                k = k + 1;
                assert(out@ =~= before + slice@.subrange(offset as int, offset + k));
            }
            proof {
                assert(before + (slice@.subrange(offset as int, offset + n) + match dump_from(
                    self@,
                    (current + n) as u64,
                    (requested - n) as nat,
                ) {
                    Ok(rest) => rest,
                    Err(_) => seq![],
                }) =~= out@ + match dump_from(
                    self@,
                    (current + n) as u64,
                    (requested - n) as nat,
                ) {
                    Ok(rest) => rest,
                    Err(_) => seq![],
                });
            }
            current = current + n as u64;
            requested = requested - n;
        }
        assert(out@ + seq![] =~= out@);
        Ok(out)
    }
}

} // verus!
