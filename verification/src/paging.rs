//! Construction of the guest's identity-mapped four-level page tables.
use vstd::prelude::*;
use std::collections::HashMap;
use crate::mem::{
    Flags, LayoutTableEntry, PAGE_1GIB, PAGE_2MIB, PAGE_4KIB, as_virt_addr, phys_of_virt,
    spec_as_virt_addr,
};
use crate::pagetable::{
    ADDR_MASK, PAGE_FLAG_HUGE, PAGE_FLAG_NOT_EXECUTABLE, PAGE_FLAG_PRESENT, PAGE_FLAG_WRITE,
    ShapeMap, TableMap, is_leaf, lemma_add_table, lemma_link_table, lemma_upgrade,
    lemma_walks_kept_refl, lemma_walks_kept_trans, walk_kept, walks_kept, entry_addr, Leaf, low,
    level_size, translate, reads, above_ok, lemma_place_leaf, lemma_leaf_slot_translates, p1, p2,
    p3, p4, idx, lemma_leaf_bits, lemma_translate_sub, is_exec, is_huge, is_present, is_write, shape_ok, zero_table,
    lemma_indices, lemma_zero_absent,
};

verus! {

/// Errors of page-table construction.
#[derive(Debug, PartialEq, Eq, Structural)]
pub enum PagingError {
    EmptyModule,
    UnknownRegionIndex(usize),
    /// No table is known at this guest physical address.
    NoRegionForAddr(u64),
    /// The entry index lies outside the table.
    IndexOutOfBounds(usize),
    /// The address is already mapped by a huge page.
    Overlapping(u64),
}

/// The entry a fresh mapping of `addr` gets.
pub open spec fn new_entry_bits(addr: u64, huge: bool, code: bool, write: bool) -> u64 {
    PAGE_FLAG_PRESENT | (addr & ADDR_MASK) | (if huge {
        PAGE_FLAG_HUGE
    } else {
        0u64
    }) | (if !code {
        PAGE_FLAG_NOT_EXECUTABLE
    } else {
        0u64
    }) | (if write {
        PAGE_FLAG_WRITE
    } else {
        0u64
    })
}

/// A hexadecimal digit, in lower case.
pub open spec fn hex_digit(d: u64) -> Seq<char> {
    if d == 0 {
        "0"@
    } else if d == 1 {
        "1"@
    } else if d == 2 {
        "2"@
    } else if d == 3 {
        "3"@
    } else if d == 4 {
        "4"@
    } else if d == 5 {
        "5"@
    } else if d == 6 {
        "6"@
    } else if d == 7 {
        "7"@
    } else if d == 8 {
        "8"@
    } else if d == 9 {
        "9"@
    } else if d == 10 {
        "a"@
    } else if d == 11 {
        "b"@
    } else if d == 12 {
        "c"@
    } else if d == 13 {
        "d"@
    } else if d == 14 {
        "e"@
    } else {
        "f"@
    }
}

/// `n` in lower-case hexadecimal, without leading zeros.
pub open spec fn hex_text(n: u64) -> Seq<char>
    decreases n,
{
    if n < 16 {
        hex_digit(n)
    } else {
        hex_text(n / 16) + hex_digit(n % 16)
    }
}

/// `true` or `false`.
pub open spec fn bool_text(b: bool) -> Seq<char> {
    if b {
        "true"@
    } else {
        "false"@
    }
}

/// How a page table entry reads: whether it is present, huge, writable and
/// executable, and its address in hexadecimal.
pub open spec fn entry_text(e: u64) -> Seq<char> {
    "Present: "@ + bool_text(is_present(e)) + ", Huge: "@ + bool_text(is_huge(e)) + ", Write: "@
        + bool_text(is_write(e)) + ", Exec: "@ + bool_text(is_exec(e)) + ", Addr: "@ + hex_text(
        entry_addr(e),
    )
}

fn hex_digit_str(d: u64) -> (r: &'static str)
    requires
        d < 16,
    ensures
        r@ == hex_digit(d),
{
    if d == 0 {
        "0"
    } else if d == 1 {
        "1"
    } else if d == 2 {
        "2"
    } else if d == 3 {
        "3"
    } else if d == 4 {
        "4"
    } else if d == 5 {
        "5"
    } else if d == 6 {
        "6"
    } else if d == 7 {
        "7"
    } else if d == 8 {
        "8"
    } else if d == 9 {
        "9"
    } else if d == 10 {
        "a"
    } else if d == 11 {
        "b"
    } else if d == 12 {
        "c"
    } else if d == 13 {
        "d"
    } else if d == 14 {
        "e"
    } else {
        "f"
    }
}

/// `n` in lower-case hexadecimal, without leading zeros.
pub fn hex_string(n: u64) -> (r: String)
    ensures
        r@ == hex_text(n),
    decreases n,
{
    if n < 16 {
        String::from_str(hex_digit_str(n))
    } else {
        let mut s = hex_string(n / 16);
        s.append(hex_digit_str(n % 16));
        s
    }
}

fn bool_str(b: bool) -> (r: &'static str)
    ensures
        r@ == bool_text(b),
{
    if b {
        "true"
    } else {
        "false"
    }
}

/// One 64-bit entry of a page table.
#[derive(Clone, Copy, Debug)]
pub struct PageEntry(pub u64);

impl PageEntry {
    /// A present entry for `addr`, huge or not, whose permissions follow `flags`.
    pub fn new(addr: u64, huge: bool, flags: Flags) -> (r: PageEntry)
        requires
            addr % 0x1000 == 0,
        ensures
            r.0 == new_entry_bits(addr, huge, flags.spec_is_code(), flags.spec_is_write()),
            is_present(r.0),
            is_huge(r.0) == huge,
            is_write(r.0) == flags.spec_is_write(),
            is_exec(r.0) == flags.spec_is_code(),
            entry_addr(r.0) == addr & ADDR_MASK,
    {
        let mut entry: u64 = PAGE_FLAG_PRESENT;
        entry = entry | (addr & ADDR_MASK);
        let h: u64 = if huge {
            PAGE_FLAG_HUGE
        } else {
            0
        };
        let code = flags.is_code();
        let x: u64 = if !code {
            PAGE_FLAG_NOT_EXECUTABLE
        } else {
            0
        };
        let write = flags.is_write();
        let w: u64 = if write {
            PAGE_FLAG_WRITE
        } else {
            0
        };
        let r = entry | h | x | w;
        proof {
            lemma_entry_bits(addr, h, x, w);
        }
        PageEntry(r)
    }

    /// Grant or withdraw write permission.
    pub fn set_write(&mut self, write: bool)
        ensures
            final(self).0 == if write {
                old(self).0 | PAGE_FLAG_WRITE
            } else {
                old(self).0 & !PAGE_FLAG_WRITE
            },
            is_write(final(self).0) == write,
            is_present(final(self).0) == is_present(old(self).0),
            is_huge(final(self).0) == is_huge(old(self).0),
            is_exec(final(self).0) == is_exec(old(self).0),
            entry_addr(final(self).0) == entry_addr(old(self).0),
    {
        let e = self.0;
        if write {
            self.0 = e | PAGE_FLAG_WRITE;
            assert(is_write(e | 2) && (is_present(e | 2) == is_present(e)) && (is_huge(e | 2)
                == is_huge(e)) && (is_exec(e | 2) == is_exec(e)) && entry_addr(e | 2)
                == entry_addr(e)) by (bit_vector);
        } else {
            self.0 = e & !PAGE_FLAG_WRITE;
            assert(!is_write(e & !2u64) && (is_present(e & !2u64) == is_present(e)) && (is_huge(
                e & !2u64,
            ) == is_huge(e)) && (is_exec(e & !2u64) == is_exec(e)) && entry_addr(e & !2u64)
                == entry_addr(e)) by (bit_vector);
        }
    }

    /// Allow or forbid instruction fetches.
    pub fn set_exec(&mut self, exec: bool)
        ensures
            final(self).0 == if exec {
                old(self).0 & !PAGE_FLAG_NOT_EXECUTABLE
            } else {
                old(self).0 | PAGE_FLAG_NOT_EXECUTABLE
            },
            is_exec(final(self).0) == exec,
            is_present(final(self).0) == is_present(old(self).0),
            is_huge(final(self).0) == is_huge(old(self).0),
            is_write(final(self).0) == is_write(old(self).0),
            entry_addr(final(self).0) == entry_addr(old(self).0),
    {
        let e = self.0;
        if exec {
            self.0 = e & !PAGE_FLAG_NOT_EXECUTABLE;
            assert(is_exec(e & !0x8000_0000_0000_0000u64) && (is_present(
                e & !0x8000_0000_0000_0000u64,
            ) == is_present(e)) && (is_huge(e & !0x8000_0000_0000_0000u64) == is_huge(e)) && (
            is_write(e & !0x8000_0000_0000_0000u64) == is_write(e)) && entry_addr(
                e & !0x8000_0000_0000_0000u64,
            ) == entry_addr(e)) by (bit_vector);
        } else {
            self.0 = e | PAGE_FLAG_NOT_EXECUTABLE;
            assert(!is_exec(e | 0x8000_0000_0000_0000u64) && (is_present(
                e | 0x8000_0000_0000_0000u64,
            ) == is_present(e)) && (is_huge(e | 0x8000_0000_0000_0000u64) == is_huge(e)) && (
            is_write(e | 0x8000_0000_0000_0000u64) == is_write(e)) && entry_addr(
                e | 0x8000_0000_0000_0000u64,
            ) == entry_addr(e)) by (bit_vector);
        }
    }

    /// Replace the address bits by those of `addr`.
    pub fn set_addr(&mut self, addr: u64)
        requires
            addr % 0x1000 == 0,
        ensures
            final(self).0 == (old(self).0 & !ADDR_MASK) | (addr & ADDR_MASK),
            entry_addr(final(self).0) == addr & ADDR_MASK,
            is_present(final(self).0) == is_present(old(self).0),
            is_huge(final(self).0) == is_huge(old(self).0),
            is_write(final(self).0) == is_write(old(self).0),
            is_exec(final(self).0) == is_exec(old(self).0),
    {
        let e = self.0;
        let r = (e & !ADDR_MASK) | (addr & ADDR_MASK);
        assert(r == (e & !0x000F_FFFF_FFFF_F000u64) | (addr & 0x000F_FFFF_FFFF_F000u64) ==> (
        r & 0x000F_FFFF_FFFF_F000u64 == addr & 0x000F_FFFF_FFFF_F000u64 && (r & 1 != 0) == (e & 1
            != 0) && (r & 0x80 != 0) == (e & 0x80 != 0) && (r & 2 != 0) == (e & 2 != 0) && (r
            & 0x8000_0000_0000_0000u64 == 0) == (e & 0x8000_0000_0000_0000u64 == 0)))
            by (bit_vector);
        self.0 = r;
    }

    pub fn present(&self) -> (r: bool)
        ensures
            r == is_present(self.0),
    {
        self.0 & PAGE_FLAG_PRESENT != 0
    }

    pub fn huge(&self) -> (r: bool)
        ensures
            r == is_huge(self.0),
    {
        self.0 & PAGE_FLAG_HUGE != 0
    }

    pub fn write(&self) -> (r: bool)
        ensures
            r == is_write(self.0),
    {
        self.0 & PAGE_FLAG_WRITE != 0
    }

    pub fn exec(&self) -> (r: bool)
        ensures
            r == is_exec(self.0),
    {
        self.0 & PAGE_FLAG_NOT_EXECUTABLE == 0
    }

    pub fn addr(&self) -> (r: u64)
        ensures
            r == entry_addr(self.0),
    {
        self.0 & ADDR_MASK
    }

    /// How the entry reads (see `entry_text`).
    pub fn to_string(&self) -> (r: String)
        ensures
            r@ == entry_text(self.0),
    {
        let mut s = String::from_str("Present: ");
        s.append(bool_str(self.present()));
        s.append(", Huge: ");
        s.append(bool_str(self.huge()));
        s.append(", Write: ");
        s.append(bool_str(self.write()));
        s.append(", Exec: ");
        s.append(bool_str(self.exec()));
        s.append(", Addr: ");
        let addr = hex_string(self.addr());
        s.append(addr.as_str());
        s
    }

    /// The entry's bytes in memory order (x86-64 is little-endian).
    pub fn to_ne_bytes(self) -> (r: [u8; 8])
        ensures
            forall|i: int| 0 <= i < 8 ==> #[trigger] r@[i] as int == (self.0 as int / pow256(i)) % 256,
    {
        let v = self.0;
        let r = [
            (v & 0xff) as u8,
            ((v >> 8) & 0xff) as u8,
            ((v >> 16) & 0xff) as u8,
            ((v >> 24) & 0xff) as u8,
            ((v >> 32) & 0xff) as u8,
            ((v >> 40) & 0xff) as u8,
            ((v >> 48) & 0xff) as u8,
            ((v >> 56) & 0xff) as u8,
        ];
        proof {
            lemma_byte_digits(v);
        }
        r
    }

    /// The entry with the given raw bits.
    pub fn from(entry: u64) -> (r: PageEntry)
        ensures
            r.0 == entry,
    {
        PageEntry(entry)
    }
}

/// 256 to the power `i`, for `i` in 0..8.
pub open spec fn pow256(i: int) -> int {
    if i == 0 {
        1
    } else if i == 1 {
        0x100
    } else if i == 2 {
        0x1_0000
    } else if i == 3 {
        0x100_0000
    } else if i == 4 {
        0x1_0000_0000
    } else if i == 5 {
        0x100_0000_0000
    } else if i == 6 {
        0x1_0000_0000_0000
    } else {
        0x100_0000_0000_0000
    }
}

proof fn lemma_byte_digits(v: u64)
    ensures
        (v & 0xff) as int == (v as int / pow256(0)) % 256,
        ((v >> 8) & 0xff) as int == (v as int / pow256(1)) % 256,
        ((v >> 16) & 0xff) as int == (v as int / pow256(2)) % 256,
        ((v >> 24) & 0xff) as int == (v as int / pow256(3)) % 256,
        ((v >> 32) & 0xff) as int == (v as int / pow256(4)) % 256,
        ((v >> 40) & 0xff) as int == (v as int / pow256(5)) % 256,
        ((v >> 48) & 0xff) as int == (v as int / pow256(6)) % 256,
        ((v >> 56) & 0xff) as int == (v as int / pow256(7)) % 256,
{
    assert((v & 0xff) == (v / 1) % 256 && ((v >> 8) & 0xff) == (v / 0x100) % 256 && ((v >> 16)
        & 0xff) == (v / 0x1_0000) % 256 && ((v >> 24) & 0xff) == (v / 0x100_0000) % 256 && ((v
        >> 32) & 0xff) == (v / 0x1_0000_0000) % 256 && ((v >> 40) & 0xff) == (v / 0x100_0000_0000)
        % 256 && ((v >> 48) & 0xff) == (v / 0x1_0000_0000_0000) % 256 && ((v >> 56) & 0xff) == (v
        / 0x100_0000_0000_0000) % 256) by (bit_vector);
}

proof fn lemma_le_zero()
    ensures
        ((0u8 as u64) | ((0u8 as u64) << 8u64) | ((0u8 as u64) << 16u64) | ((0u8 as u64) << 24u64)
            | ((0u8 as u64) << 32u64) | ((0u8 as u64) << 40u64) | ((0u8 as u64) << 48u64) | ((0u8
            as u64) << 56u64)) == 0u64,
{
    assert(((0u8 as u64) | ((0u8 as u64) << 8u64) | ((0u8 as u64) << 16u64) | ((0u8 as u64)
        << 24u64) | ((0u8 as u64) << 32u64) | ((0u8 as u64) << 40u64) | ((0u8 as u64) << 48u64) | ((
    0u8 as u64) << 56u64)) == 0u64) by (bit_vector);
}

proof fn lemma_entry_bits(addr: u64, h: u64, x: u64, w: u64)
    requires
        h == 0 || h == PAGE_FLAG_HUGE,
        x == 0 || x == PAGE_FLAG_NOT_EXECUTABLE,
        w == 0 || w == PAGE_FLAG_WRITE,
    ensures
        ({
            let r = (((1u64 | (addr & ADDR_MASK)) | h) | x) | w;
            &&& is_present(r)
            &&& is_huge(r) == (h != 0)
            &&& is_exec(r) == (x == 0)
            &&& is_write(r) == (w != 0)
            &&& entry_addr(r) == addr & ADDR_MASK
            &&& r == PAGE_FLAG_PRESENT | (addr & ADDR_MASK) | h | x | w
        }),
{
    let r = (((1u64 | (addr & ADDR_MASK)) | h) | x) | w;
    assert(((h == 0 || h == 0x80) && (x == 0 || x == 0x8000_0000_0000_0000u64) && (w == 0 || w
        == 2) && r == (((1u64 | (addr & 0x000F_FFFF_FFFF_F000u64)) | h) | x) | w) ==> ((r & 1
        != 0) && ((r & 0x80 != 0) == (h != 0)) && ((r & 0x8000_0000_0000_0000u64 == 0) == (x
        == 0)) && ((r & 2 != 0) == (w != 0)) && (r & 0x000F_FFFF_FFFF_F000u64 == addr
        & 0x000F_FFFF_FFFF_F000u64))) by (bit_vector);
}


/// Guest physical addresses of page tables stay below this bound, so that an
/// entry can hold them.
pub const TABLE_ADDR_LIMIT: u64 = 0x10_0000_0000_0000;

/// Size of one table in bytes.
pub const TABLE_SIZE: usize = 0x1000;

/// The little-endian 64-bit value stored at `off` in `b`.
pub open spec fn le_u64(b: Seq<u8>, off: int) -> u64 {
    (b[off] as u64) | ((b[off + 1] as u64) << 8u64) | ((b[off + 2] as u64) << 16u64) | ((b[off
        + 3] as u64) << 24u64) | ((b[off + 4] as u64) << 32u64) | ((b[off + 5] as u64) << 40u64)
        | ((b[off + 6] as u64) << 48u64) | ((b[off + 7] as u64) << 56u64)
}

/// The little-endian 64-bit value at `off` in `data`.
pub fn load_u64(data: &[u8], off: usize) -> (r: u64)
    requires
        off + 8 <= data@.len(),
    ensures
        r == le_u64(data@, off as int),
{
    (data[off] as u64) | ((data[off + 1] as u64) << 8u64) | ((data[off + 2] as u64) << 16u64) | ((
    data[off + 3] as u64) << 24u64) | ((data[off + 4] as u64) << 32u64) | ((data[off + 5] as u64)
        << 40u64) | ((data[off + 6] as u64) << 48u64) | ((data[off + 7] as u64) << 56u64)
}

/// Store `v` little-endian at `off` in `data`; the other bytes stay.
pub fn store_u64(data: &mut Vec<u8>, off: usize, v: u64)
    requires
        off + 8 <= old(data)@.len(),
    ensures
        final(data)@.len() == old(data)@.len(),
        le_u64(final(data)@, off as int) == v,
        forall|j: int|
            0 <= j < old(data)@.len() && (j < off || j >= off + 8) ==> #[trigger] final(data)@[j]
                == old(data)@[j],
{
    let n = data.len();
    let c0 = v & 0xff;
    let c1 = (v >> 8u64) & 0xff;
    let c2 = (v >> 16u64) & 0xff;
    let c3 = (v >> 24u64) & 0xff;
    let c4 = (v >> 32u64) & 0xff;
    let c5 = (v >> 40u64) & 0xff;
    let c6 = (v >> 48u64) & 0xff;
    let c7 = (v >> 56u64) & 0xff;
    assert(c0 < 256 && c1 < 256 && c2 < 256 && c3 < 256 && c4 < 256 && c5 < 256 && c6 < 256 && c7
        < 256) by (bit_vector)
        requires
            c0 == v & 0xff,
            c1 == (v >> 8u64) & 0xff,
            c2 == (v >> 16u64) & 0xff,
            c3 == (v >> 24u64) & 0xff,
            c4 == (v >> 32u64) & 0xff,
            c5 == (v >> 40u64) & 0xff,
            c6 == (v >> 48u64) & 0xff,
            c7 == (v >> 56u64) & 0xff,
    ;
    data.set(off, c0 as u8);
    data.set(off + 1, c1 as u8);
    data.set(off + 2, c2 as u8);
    data.set(off + 3, c3 as u8);
    data.set(off + 4, c4 as u8);
    data.set(off + 5, c5 as u8);
    data.set(off + 6, c6 as u8);
    data.set(off + 7, c7 as u8);
    assert(c0 | (c1 << 8u64) | (c2 << 16u64) | (c3 << 24u64) | (c4 << 32u64) | (c5 << 40u64) | (c6
        << 48u64) | (c7 << 56u64) == v) by (bit_vector)
        requires
            c0 == v & 0xff,
            c1 == (v >> 8u64) & 0xff,
            c2 == (v >> 16u64) & 0xff,
            c3 == (v >> 24u64) & 0xff,
            c4 == (v >> 32u64) & 0xff,
            c5 == (v >> 40u64) & 0xff,
            c6 == (v >> 48u64) & 0xff,
            c7 == (v >> 56u64) & 0xff,
    ;
}

/// Read the entry at `idx` of a table given by its bytes.
pub fn get_at(table: &[u8], idx: usize) -> (r: Result<PageEntry, PagingError>)
    ensures
        match r {
            Ok(e) => (idx + 1) * 8 <= table@.len() && e.0 == le_u64(table@, idx * 8),
            Err(e) => (idx + 1) * 8 > table@.len() && e == PagingError::IndexOutOfBounds(idx),
        },
{
    if idx >= table.len() / 8 {
        return Err(PagingError::IndexOutOfBounds(idx));
    }
    let offset = idx * 8;
    Ok(PageEntry::from(load_u64(table, offset)))
}

/// Write `entry` at `idx` of the table that starts at byte `base` of `data`.
pub fn write_at(data: &mut Vec<u8>, base: usize, idx: usize, entry: PageEntry) -> (r: Result<
    (),
    PagingError,
>)
    requires
        base + TABLE_SIZE <= old(data)@.len(),
    ensures
        final(data)@.len() == old(data)@.len(),
        match r {
            Ok(_) => {
                &&& idx < 512
                &&& le_u64(final(data)@, base + idx * 8) == entry.0
                &&& forall|j: int|
                    0 <= j < old(data)@.len() && (j < base + idx * 8 || j >= base + idx * 8 + 8)
                        ==> #[trigger] final(data)@[j] == old(data)@[j]
            },
            Err(e) => idx >= 512 && e == PagingError::IndexOutOfBounds(idx) && final(data)@ == old(
                data,
            )@,
        },
{
    let n = data.len();
    if idx >= TABLE_SIZE / 8 {
        return Err(PagingError::IndexOutOfBounds(idx));
    }
    store_u64(data, base + idx * 8, entry.0);
    Ok(())
}

/// A page-table entry written into a table reads back as written, and the
/// table's other entries keep their values: `new` is `old` after writing
/// `v` at index `idx` of the table at byte `base` (what `write_at` does).
pub proof fn law_entry_read_after_write(old: Seq<u8>, new: Seq<u8>, base: int, idx: int, v: u64)
    requires
        0 <= base,
        base + TABLE_SIZE <= old.len(),
        0 <= idx < 512,
        new.len() == old.len(),
        le_u64(new, base + idx * 8) == v,
        forall|j: int|
            0 <= j < old.len() && (j < base + idx * 8 || j >= base + idx * 8 + 8) ==> #[trigger] new[j]
                == old[j],
    ensures
        le_u64(new.subrange(base, base + TABLE_SIZE), idx * 8) == v,
        forall|k: int|
            0 <= k < 512 && k != idx ==> #[trigger] le_u64(new, base + k * 8) == le_u64(
                old,
                base + k * 8,
            ),
{
    let t = new.subrange(base, base + TABLE_SIZE as int);
    assert(t[idx * 8] == new[base + idx * 8]);
    assert(t[idx * 8 + 1] == new[base + idx * 8 + 1]);
    assert(t[idx * 8 + 2] == new[base + idx * 8 + 2]);
    assert(t[idx * 8 + 3] == new[base + idx * 8 + 3]);
    assert(t[idx * 8 + 4] == new[base + idx * 8 + 4]);
    assert(t[idx * 8 + 5] == new[base + idx * 8 + 5]);
    assert(t[idx * 8 + 6] == new[base + idx * 8 + 6]);
    assert(t[idx * 8 + 7] == new[base + idx * 8 + 7]);
    assert forall|k: int| 0 <= k < 512 && k != idx implies #[trigger] le_u64(new, base + k * 8)
        == le_u64(old, base + k * 8) by {
        assert(k < idx || k > idx);
        assert(new[base + k * 8] == old[base + k * 8]);
        assert(new[base + k * 8 + 1] == old[base + k * 8 + 1]);
        assert(new[base + k * 8 + 2] == old[base + k * 8 + 2]);
        assert(new[base + k * 8 + 3] == old[base + k * 8 + 3]);
        assert(new[base + k * 8 + 4] == old[base + k * 8 + 4]);
        assert(new[base + k * 8 + 5] == old[base + k * 8 + 5]);
        assert(new[base + k * 8 + 6] == old[base + k * 8 + 6]);
        assert(new[base + k * 8 + 7] == old[base + k * 8 + 7]);
    }
}

/// A region of guest physical memory that holds page tables.
pub struct TableRegion {
    /// Guest physical address of the first byte.
    pub addr: u64,
    /// The region's bytes; a whole number of tables.
    pub data: Vec<u8>,
}

/// Where a table lives: its region and its index in the region.
#[derive(Clone, Copy, Debug, Hash)]
pub struct Page {
    pub region: usize,
    pub offset: usize,
}

/// Allocates page tables: one region of `initial` tables whose first table
/// is the root, then regions of `on_demand` tables whenever one runs full.
/// Tables follow each other without gaps in guest physical memory.
pub struct PagingArena {
    regions: Vec<TableRegion>,
    pages: HashMap<u64, Page>,
    current: usize,
    offset: usize,
    remaining: usize,
    on_demand: usize,
    next_addr: u64,
    tables: Ghost<TableMap>,
    shape: Ghost<ShapeMap>,
    root: Ghost<u64>,
}

pub open spec fn region_ok(r: TableRegion) -> bool {
    &&& r.data@.len() % 0x1000 == 0
    &&& r.data@.len() > 0
    &&& r.data@.len() <= usize::MAX
    &&& r.addr % 0x1000 == 0
    &&& r.addr + r.data@.len() <= TABLE_ADDR_LIMIT
}

/// The value of entry `k` of the table at `t` as stored in its region.
pub open spec fn stored_entry(regs: Seq<TableRegion>, p: Page, k: int) -> u64 {
    le_u64(regs[p.region as int].data@, p.offset * 0x1000 + k * 8)
}

impl PagingArena {
    /// The tables by address, each as 512 entries.
    pub closed spec fn view(&self) -> TableMap {
        self.tables@
    }

    /// Level and index prefix of each table.
    pub closed spec fn shape(&self) -> ShapeMap {
        self.shape@
    }

    /// Address of the root table.
    pub closed spec fn root(&self) -> u64 {
        self.root@
    }

    /// Address the next table will get.
    pub closed spec fn next_addr(&self) -> u64 {
        self.next_addr
    }

    /// Tables a region allocated when the current one runs full holds.
    pub closed spec fn on_demand(&self) -> nat {
        self.on_demand as nat
    }

    /// The regions, in order of address.
    pub closed spec fn regions(&self) -> Seq<TableRegion> {
        self.regions@
    }

    /// The arena's bookkeeping is consistent and its tables are well-shaped.
    pub closed spec fn wf(&self) -> bool {
        &&& self.wf_mem()
        &&& shape_ok(self.tables@, self.shape@, self.root@)
    }

    /// Regions, the table index and the bytes agree with the table model.
    pub closed spec fn wf_mem(&self) -> bool {
        let regs = self.regions@;
        let cur = regs[self.current as int];
        &&& regs.len() > 0
        &&& self.current == regs.len() - 1
        &&& forall|r: int| 0 <= r < regs.len() ==> #[trigger] region_ok(regs[r])
        &&& forall|r: int|
            0 < r < regs.len() ==> #[trigger] regs[r].addr == regs[r - 1].addr + regs[r
                - 1].data@.len()
        &&& cur.data@.len() == (self.offset + self.remaining) * 0x1000
        &&& self.next_addr == cur.addr + self.offset * 0x1000
        &&& self.next_addr % 0x1000 == 0
        &&& self.on_demand > 0
        &&& self.on_demand * 0x1000 <= usize::MAX
        &&& forall|t: u64| #[trigger]
            self.pages@.contains_key(t) == self.tables@.contains_key(t)
        &&& forall|t: u64| #[trigger]
            self.pages@.contains_key(t) ==> {
                let p = self.pages@[t];
                &&& p.region < regs.len()
                &&& (p.offset + 1) * 0x1000 <= regs[p.region as int].data@.len()
                &&& regs[p.region as int].addr + p.offset * 0x1000 == t
                &&& (p.region == self.current ==> p.offset < self.offset)
                &&& t < self.next_addr
            }
        &&& forall|t: u64, k: int|
            #![trigger self.tables@[t][k]]
            self.tables@.contains_key(t) && 0 <= k < 512 ==> self.tables@[t][k] == stored_entry(
                regs,
                self.pages@[t],
                k,
            )
        &&& forall|j: int|
            self.offset * 0x1000 <= j < cur.data@.len() ==> #[trigger] cur.data@[j] == 0
        &&& forall|t: u64| #[trigger] self.tables@.contains_key(t) ==> self.tables@[t].len() == 512
    }

    /// Every table of a well-formed arena (the root and each table that
    /// linking a child added since) lives in the bytes of one of its regions:
    /// the 4096 bytes at its address, which is a page boundary inside that
    /// region, hold its 512 entries. Regions follow each other without gaps,
    /// so the tables at two different addresses occupy disjoint bytes.
    #[verifier::spinoff_prover]
    #[verifier::rlimit(30)]
    pub proof fn law_tables_in_regions(&self, t: u64)
        requires
            self.wf(),
            self.view().contains_key(t),
        ensures
            t % 0x1000 == 0,
            exists|r: int|
                0 <= r < self.regions().len() && {
                    let reg = #[trigger] self.regions()[r];
                    &&& reg.addr <= t
                    &&& t + 0x1000 <= reg.addr + reg.data@.len()
                    &&& forall|k: int|
                        0 <= k < 512 ==> #[trigger] self.view()[t][k] == le_u64(
                            reg.data@,
                            (t - reg.addr) + k * 8,
                        )
                },
            forall|r: int|
                0 < r < self.regions().len() ==> #[trigger] self.regions()[r].addr
                    == self.regions()[r - 1].addr + self.regions()[r - 1].data@.len(),
            forall|u: u64|
                #[trigger] self.view().contains_key(u) && u != t ==> u + 0x1000 <= t || t + 0x1000
                    <= u,
    {
        assert(self.pages@.contains_key(t));
        let p = self.pages@[t];
        let reg = self.regions@[p.region as int];
        assert(region_ok(self.regions@[p.region as int]));
        assert(reg.addr + p.offset * 0x1000 == t);
        assert(t % 0x1000 == 0) by {
            vstd::arithmetic::div_mod::lemma_mod_multiples_vanish(p.offset as int, reg.addr as int, 0x1000);
        }
        assert forall|k: int| 0 <= k < 512 implies #[trigger] self.view()[t][k] == le_u64(
            reg.data@,
            (t - reg.addr) + k * 8,
        ) by {
            assert(self.tables@[t][k] == stored_entry(self.regions@, p, k));
        }
        assert(0 <= p.region < self.regions().len() && self.regions()[p.region as int] == reg);
        assert forall|u: u64|
            #[trigger] self.view().contains_key(u) && u != t implies u + 0x1000 <= t || t + 0x1000
                <= u by {
            assert(self.pages@.contains_key(u));
            let q = self.pages@[u];
            let rq = self.regions@[q.region as int];
            assert(region_ok(self.regions@[q.region as int]));
            assert(rq.addr + q.offset * 0x1000 == u);
            vstd::arithmetic::div_mod::lemma_mod_multiples_vanish(q.offset as int, rq.addr as int, 0x1000);
        }
    }

    /// An arena whose only table is an empty root table at `pml4`.
    pub fn new(pml4: u64, initial: usize, on_demand: usize) -> (r: PagingArena)
        requires
            pml4 % 0x1000 == 0,
            initial >= 1,
            on_demand >= 1,
            initial * 0x1000 <= usize::MAX,
            on_demand * 0x1000 <= usize::MAX,
            pml4 + initial * 0x1000 <= TABLE_ADDR_LIMIT,
        ensures
            r.wf(),
            r.view() == map![pml4 => zero_table()],
            r.shape() == map![pml4 => (4int, 0int)],
            r.root() == pml4,
            r.next_addr() == pml4 + 0x1000,
            r.on_demand() == on_demand,
    {
        broadcast use vstd::std_specs::hash::group_hash_axioms;

        let data: Vec<u8> = vec![0u8; initial * TABLE_SIZE];
        let base = TableRegion { addr: pml4, data };
        let mut regions: Vec<TableRegion> = Vec::new();
        regions.push(base);
        let mut pages: HashMap<u64, Page> = HashMap::new();
        pages.insert(pml4, Page { region: 0, offset: 0 });
        let ghost tables = map![pml4 => zero_table()];
        let ghost shape = map![pml4 => (4int, 0int)];
        let r = PagingArena {
            regions,
            pages,
            current: 0,
            offset: 1,
            remaining: initial - 1,
            on_demand,
            next_addr: pml4 + 0x1000,
            tables: Ghost(tables),
            shape: Ghost(shape),
            root: Ghost(pml4),
        };
        proof {
            let regs = r.regions@;
            assert(regs[0].data@ == Seq::new((initial * 0x1000) as nat, |i: int| 0u8));
            assert forall|t: u64, k: int|
                #![trigger r.tables@[t][k]]
                r.tables@.contains_key(t) && 0 <= k < 512 implies r.tables@[t][k] == stored_entry(
                regs,
                r.pages@[t],
                k,
            ) by {
                assert(t == pml4);
                assert(r.pages@[t] == Page { region: 0, offset: 0 });
                let d = regs[0].data@;
                assert(d[k * 8] == 0 && d[k * 8 + 1] == 0 && d[k * 8 + 2] == 0 && d[k * 8 + 3] == 0
                    && d[k * 8 + 4] == 0 && d[k * 8 + 5] == 0 && d[k * 8 + 6] == 0 && d[k * 8 + 7]
                    == 0);
                lemma_le_zero();
            }
            lemma_zero_absent();
            vstd::arithmetic::div_mod::lemma_mod_add_multiples_vanish(pml4 as int, 0x1000);
            vstd::arithmetic::div_mod::lemma_mod_multiples_basic(initial as int, 0x1000);
        }
        r
    }
}


impl PagingArena {
    /// The table at `addr`, if the arena holds one.
    fn table_at(&self, addr: u64) -> (r: Option<Page>)
        requires
            self.wf_mem(),
        ensures
            r is Some == self.tables@.contains_key(addr),
            r matches Some(p) ==> p == self.pages@[addr],
    {
        broadcast use vstd::std_specs::hash::group_hash_axioms;

        match self.pages.get(&addr) {
            Some(p) => Some(*p),
            None => None,
        }
    }

    /// Entry `idx` of the table at `t`, which lives at `p`.
    fn read_entry(&self, t: u64, p: Page, idx: usize) -> (r: PageEntry)
        requires
            self.wf_mem(),
            self.tables@.contains_key(t),
            p == self.pages@[t],
            idx < 512,
        ensures
            r.0 == self.tables@[t][idx as int],
    {
        assert(self.pages@.contains_key(t));
        assert(region_ok(self.regions@[p.region as int]));
        let data = self.regions[p.region].data.as_slice();
        let from = p.offset * TABLE_SIZE;
        let table = &data[from..from + TABLE_SIZE];
        let r = get_at(table, idx);
        match r {
            Ok(e) => {
                assert(self.tables@[t][idx as int] == stored_entry(self.regions@, p, idx as int));
                e
            },
            Err(_) => {
                assert(false);
                PageEntry(0)
            },
        }
    }

    /// Store `e` as entry `idx` of the table at `t`, which lives at `p`.
    fn write_entry(&mut self, t: u64, p: Page, idx: usize, e: PageEntry)
        requires
            old(self).wf_mem(),
            old(self).tables@.contains_key(t),
            p == old(self).pages@[t],
            idx < 512,
        ensures
            final(self).wf_mem(),
            final(self).tables@ == old(self).tables@.insert(
                t,
                old(self).tables@[t].update(idx as int, e.0),
            ),
            final(self).shape@ == old(self).shape@,
            final(self).root@ == old(self).root@,
            final(self).next_addr == old(self).next_addr,
            final(self).on_demand == old(self).on_demand,
    {
        let ghost old_regs = self.regions@;
        let ghost old_tables = self.tables@;
        assert(self.pages@.contains_key(t));
        assert(p.region < old_regs.len());
        assert((p.offset + 1) * 0x1000 <= old_regs[p.region as int].data@.len());
        assert(region_ok(old_regs[p.region as int]));
        let base = p.offset * TABLE_SIZE;
        let r = p.region;
        let mut region = TableRegion { addr: 0, data: Vec::new() };
        std::mem::swap(&mut region, &mut self.regions[r]);
        let res = write_at(&mut region.data, base, idx, e);
        std::mem::swap(&mut region, &mut self.regions[r]);
        proof {
            let new_regs = self.regions@;
            assert(res is Ok);
            assert(new_regs == old_regs.update(r as int, new_regs[r as int]));
            assert(new_regs[r as int].addr == old_regs[r as int].addr);
            self.tables@ = old_tables.insert(t, old_tables[t].update(idx as int, e.0));
            let nd = new_regs[r as int].data@;
            let od = old_regs[r as int].data@;
            assert forall|t2: u64, k: int|
                #![trigger self.tables@[t2][k]]
                self.tables@.contains_key(t2) && 0 <= k < 512 implies self.tables@[t2][k]
                == stored_entry(new_regs, self.pages@[t2], k) by {
                let p2 = self.pages@[t2];
                assert(self.pages@.contains_key(t2));
                if t2 == t && k == idx {
                } else {
                    assert(self.tables@[t2][k] == old_tables[t2][k]);
                    assert(old_tables[t2][k] == stored_entry(old_regs, p2, k));
                    if p2.region == r {
                        let o2 = p2.offset * 0x1000 + k * 8;
                        let o1 = p.offset * 0x1000 + idx * 8;
                        assert(o2 + 8 <= o1 || o1 + 8 <= o2);
                        assert(nd[o2] == od[o2] && nd[o2 + 1] == od[o2 + 1] && nd[o2 + 2] == od[o2
                            + 2] && nd[o2 + 3] == od[o2 + 3] && nd[o2 + 4] == od[o2 + 4] && nd[o2
                            + 5] == od[o2 + 5] && nd[o2 + 6] == od[o2 + 6] && nd[o2 + 7] == od[o2
                            + 7]);
                    } else {
                        assert(new_regs[p2.region as int] == old_regs[p2.region as int]);
                    }
                }
            }
            let cur = self.current as int;
            assert forall|j: int|
                self.offset * 0x1000 <= j < new_regs[cur].data@.len() implies #[trigger] new_regs[cur].data@[j]
                == 0 by {
                if r == self.current {
                    assert(old_regs[cur].data@[j] == 0);
                }
            }
            assert forall|x: int| 0 <= x < new_regs.len() implies #[trigger] region_ok(new_regs[x]) by {
                assert(region_ok(old_regs[x]));
            }
            assert forall|x: int|
                0 < x < new_regs.len() implies #[trigger] new_regs[x].addr == new_regs[x - 1].addr
                + new_regs[x - 1].data@.len() by {
                assert(old_regs[x].addr == old_regs[x - 1].addr + old_regs[x - 1].data@.len());
            }
        }
    }
}


impl PagingArena {
    /// Create a new child table for the parent table at `parent`, and point
    /// entry `idx` of the parent to it with the permissions of `flags`.
    /// Returns the guest physical address of the new table, a fresh zero
    /// table at the next free address.
    ///
    /// The entry must not be present yet: `write_idx` asks for a child only
    /// then, and overwriting a present entry would cut off the table it
    /// points to with every mapping below it.
    pub fn child(&mut self, parent: u64, idx: usize, flags: Flags) -> (r: Result<u64, PagingError>)
        requires
            old(self).wf(),
            old(self).view().contains_key(parent),
            idx < 512,
            old(self).shape()[parent].0 >= 2,
            !is_present(old(self).view()[parent][idx as int]),
            old(self).next_addr() + 0x1000 + old(self).on_demand() * 0x1000 <= TABLE_ADDR_LIMIT,
        ensures
            r == Ok::<u64, PagingError>(old(self).next_addr()),
            !old(self).view().contains_key(old(self).next_addr()),
            final(self).wf(),
            final(self).view() == old(self).view().insert(old(self).next_addr(), zero_table()).insert(
                parent,
                old(self).view()[parent].update(
                    idx as int,
                    new_entry_bits(
                        old(self).next_addr(),
                        false,
                        flags.spec_is_code(),
                        flags.spec_is_write(),
                    ),
                ),
            ),
            final(self).shape() == old(self).shape().insert(
                old(self).next_addr(),
                (old(self).shape()[parent].0 - 1, old(self).shape()[parent].1 * 512 + idx),
            ),
            final(self).root() == old(self).root(),
            final(self).next_addr() == old(self).next_addr() + 0x1000,
            final(self).on_demand() == old(self).on_demand(),
            walks_kept(old(self).view(), final(self).view(), old(self).root()),
    {
        broadcast use vstd::std_specs::hash::group_hash_axioms;

        let ghost old_view = self.tables@;
        let ghost old_shape = self.shape@;
        let ghost root = self.root@;
        let ghost old_regs = self.regions@;
        let addr = self.next_addr;
        assert(!self.pages@.contains_key(addr)) by {
            if self.pages@.contains_key(addr) {
                assert(addr < self.next_addr);
            }
        }
        proof {
            vstd::arithmetic::div_mod::lemma_mod_add_multiples_vanish(addr as int, 0x1000);
            vstd::arithmetic::div_mod::lemma_mod_multiples_basic(self.on_demand as int, 0x1000);
        }
        self.next_addr = self.next_addr + 0x1000;
        if self.remaining == 0 {
            let data: Vec<u8> = vec![0u8; self.on_demand * TABLE_SIZE];
            self.regions.push(TableRegion { addr, data });
            self.current = self.regions.len() - 1;
            self.offset = 0;
            self.remaining = self.on_demand;
            proof {
                let regs = self.regions@;
                assert(regs == old_regs.push(TableRegion { addr, data }));
                assert forall|x: int| 0 <= x < regs.len() implies #[trigger] region_ok(regs[x]) by {
                    if x < old_regs.len() {
                        assert(regs[x] == old_regs[x]);
                    }
                }
                assert forall|x: int|
                    0 < x < regs.len() implies #[trigger] regs[x].addr == regs[x - 1].addr
                    + regs[x - 1].data@.len() by {
                    if x < old_regs.len() {
                        assert(regs[x] == old_regs[x]);
                        assert(regs[x - 1] == old_regs[x - 1]);
                    }
                }
                assert forall|t: u64, k: int|
                    #![trigger self.tables@[t][k]]
                    self.tables@.contains_key(t) && 0 <= k < 512 implies self.tables@[t][k]
                    == stored_entry(regs, self.pages@[t], k) by {
                    assert(self.pages@.contains_key(t));
                    let pr = self.pages@[t].region as int;
                    assert(regs[pr] == old_regs[pr]);
                }
                assert forall|t: u64| #[trigger] self.pages@.contains_key(t) implies ({
                    let p = self.pages@[t];
                    &&& p.region < regs.len()
                    &&& (p.offset + 1) * 0x1000 <= regs[p.region as int].data@.len()
                    &&& regs[p.region as int].addr + p.offset * 0x1000 == t
                    &&& (p.region == self.current ==> p.offset < self.offset)
                    &&& t < self.next_addr
                }) by {
                    let pr = self.pages@[t].region as int;
                    assert(regs[pr] == old_regs[pr]);
                }
            }
        }
        assert(region_ok(self.regions@[self.current as int]));
        self.remaining = self.remaining - 1;
        let page = Page { region: self.current, offset: self.offset };
        self.offset = self.offset + 1;
        self.pages.insert(addr, page);
        let ghost level = old_shape[parent].0 - 1;
        let ghost pre = old_shape[parent].1 * 512 + idx;
        proof {
            lemma_add_table(old_view, old_shape, root, addr, (level, pre));
            self.tables@ = old_view.insert(addr, zero_table());
            self.shape@ = old_shape.insert(addr, (level, pre));
            let regs = self.regions@;
            let cur = regs[self.current as int];
            assert(cur.addr + page.offset * 0x1000 == addr);
            assert forall|k: int| 0 <= k < 512 implies #[trigger] zero_table()[k] == stored_entry(
                regs,
                page,
                k,
            ) by {
                let d = cur.data@;
                let o = page.offset * 0x1000 + k * 8;
                assert(d[o] == 0 && d[o + 1] == 0 && d[o + 2] == 0 && d[o + 3] == 0 && d[o + 4] == 0
                    && d[o + 5] == 0 && d[o + 6] == 0 && d[o + 7] == 0);
                lemma_le_zero();
            }
            assert forall|t: u64, k: int|
                #![trigger self.tables@[t][k]]
                self.tables@.contains_key(t) && 0 <= k < 512 implies self.tables@[t][k]
                == stored_entry(regs, self.pages@[t], k) by {
                if t == addr {
                    assert(self.tables@[t] == zero_table());
                    assert(self.pages@[t] == page);
                } else {
                    assert(self.tables@[t] == old_view[t]);
                }
            }
            assert forall|t: u64| #[trigger] self.pages@.contains_key(t) implies ({
                let p = self.pages@[t];
                &&& p.region < regs.len()
                &&& (p.offset + 1) * 0x1000 <= regs[p.region as int].data@.len()
                &&& regs[p.region as int].addr + p.offset * 0x1000 == t
                &&& (p.region == self.current ==> p.offset < self.offset)
                &&& t < self.next_addr
            }) by {
                if t != addr {
                    let p = self.pages@[t];
                    assert(old_regs.len() <= regs.len());
                }
            }
            assert(self.wf_mem());
        }
        let parent_page = match self.table_at(parent) {
            Some(p) => p,
            None => {
                return Err(PagingError::NoRegionForAddr(parent));
            },
        };
        let entry = PageEntry::new(addr, false, flags);
        let ghost mid_view = self.tables@;
        self.write_entry(parent, parent_page, idx, entry);
        proof {
            assert(addr & ADDR_MASK == addr) by (bit_vector)
                requires
                    addr % 0x1000 == 0,
                    addr < 0x10_0000_0000_0000u64,
            ;
            assert(mid_view[parent] == old_view[parent]);
            assert forall|va: u64| #[trigger] walk_kept(old_view, self.tables@, root, va) by {
                lemma_link_table(
                    mid_view,
                    self.shape@,
                    root,
                    parent,
                    idx as int,
                    entry.0,
                    va,
                );
            }
            lemma_link_table(mid_view, self.shape@, root, parent, idx as int, entry.0, 0);
        }
        Ok(addr)
    }
}


/// A present entry after it gains the execute permission if `code` asks
/// for it and the write permission if `write` asks for it.
pub open spec fn upgraded(e: u64, code: bool, write: bool) -> u64 {
    let e1 = if !is_exec(e) && code {
        e & !PAGE_FLAG_NOT_EXECUTABLE
    } else {
        e
    };
    if !is_write(e1) && write {
        e1 | PAGE_FLAG_WRITE
    } else {
        e1
    }
}

/// Point entry `idx` of the table at `addr_table` to a child table, creating
/// the child when the entry is not present. A present entry keeps its child
/// and only gains the permissions of `flags` it lacks. Returns the child's
/// address, or `Overlapping` when the entry already maps a huge page.
pub fn write_idx(
    arena: &mut PagingArena,
    addr_target: u64,
    addr_table: u64,
    idx: usize,
    flags: Flags,
) -> (r: Result<u64, PagingError>)
    requires
        old(arena).wf(),
        old(arena).view().contains_key(addr_table),
        idx < 512,
        old(arena).shape()[addr_table].0 >= 2,
        old(arena).next_addr() + 0x1000 + old(arena).on_demand() * 0x1000 <= TABLE_ADDR_LIMIT,
    ensures
        final(arena).wf(),
        final(arena).root() == old(arena).root(),
        final(arena).on_demand() == old(arena).on_demand(),
        ({
            let e = old(arena).view()[addr_table][idx as int];
            match r {
                Err(err) => {
                    &&& is_present(e) && is_huge(e)
                    &&& err == PagingError::Overlapping(addr_target & 0xFFFF_FFFF_FFFFu64)
                    &&& final(arena).view() == old(arena).view()
                    &&& final(arena).shape() == old(arena).shape()
                    &&& final(arena).next_addr() == old(arena).next_addr()
                },
                Ok(next) => {
                    let e2 = final(arena).view()[addr_table][idx as int];
                    &&& !(is_present(e) && is_huge(e))
                    &&& final(arena).view().contains_key(next)
                    &&& final(arena).shape()[next] == (
                        old(arena).shape()[addr_table].0 - 1,
                        old(arena).shape()[addr_table].1 * 512 + idx,
                    )
                    &&& is_present(e2) && !is_huge(e2) && entry_addr(e2) == next
                    &&& (flags.spec_is_code() ==> is_exec(e2))
                    &&& (flags.spec_is_write() ==> is_write(e2))
                    &&& forall|t: u64| #[trigger]
                        old(arena).view().contains_key(t) ==> final(arena).view().contains_key(t)
                            && final(arena).shape()[t] == old(arena).shape()[t]
                    &&& forall|t: u64, k: int|
                        old(arena).view().contains_key(t) && 0 <= k < 512 && (t != addr_table
                            || k != idx) ==> #[trigger] final(arena).view()[t][k] == old(
                            arena,
                        ).view()[t][k]
                    &&& walks_kept(old(arena).view(), final(arena).view(), old(arena).root())
                    &&& final(arena).next_addr() <= old(arena).next_addr() + 0x1000
                    &&& !is_present(e) ==> next == old(arena).next_addr()
                    &&& is_present(e) ==> {
                        &&& next == entry_addr(e)
                        &&& e2 == upgraded(e, flags.spec_is_code(), flags.spec_is_write())
                        &&& final(arena).next_addr() == old(arena).next_addr()
                        &&& final(arena).shape() == old(arena).shape()
                        &&& final(arena).view() == old(arena).view().insert(
                            addr_table,
                            old(arena).view()[addr_table].update(idx as int, e2),
                        )
                    }
                    &&& is_present(e) && (flags.spec_is_code() ==> is_exec(e)) && (
                    flags.spec_is_write() ==> is_write(e)) ==> final(arena).view() == old(
                        arena,
                    ).view()
                },
            }
        }),
{
    let ghost old_view = arena.tables@;
    let ghost old_shape = arena.shape@;
    let ghost root = arena.root@;
    let table = match arena.table_at(addr_table) {
        Some(t) => t,
        None => {
            return Err(PagingError::NoRegionForAddr(addr_table));
        },
    };
    let mut entry = arena.read_entry(addr_table, table, idx);
    if entry.present() && entry.huge() {
        return Err(PagingError::Overlapping(phys_of_virt(addr_target)));
    }
    if !entry.present() {
        let next_table = arena.child(addr_table, idx, flags);
        proof {
            let c = old(arena).next_addr();
            let v = new_entry_bits(c, false, flags.spec_is_code(), flags.spec_is_write());
            lemma_entry_bits(
                c,
                0,
                if !flags.spec_is_code() {
                    PAGE_FLAG_NOT_EXECUTABLE
                } else {
                    0
                },
                if flags.spec_is_write() {
                    PAGE_FLAG_WRITE
                } else {
                    0
                },
            );
            assert(c & ADDR_MASK == c) by (bit_vector)
                requires
                    c % 0x1000 == 0,
                    c < 0x10_0000_0000_0000u64,
            ;
            assert(arena.tables@[addr_table][idx as int] == v);
            assert(!old_view.contains_key(c)) by {
                if old_view.contains_key(c) {
                    assert(old(arena).pages@.contains_key(c));
                }
            }
        }
        return next_table;
    }
    let ghost e0 = entry.0;
    let mut modified = false;
    if !entry.exec() && flags.is_code() {
        entry.set_exec(true);
        modified = true;
    }
    if !entry.write() && flags.is_write() {
        entry.set_write(true);
        modified = true;
    }
    assert(entry.0 == upgraded(e0, flags.spec_is_code(), flags.spec_is_write()));
    if modified {
        arena.write_entry(addr_table, table, idx, entry);
        proof {
            assert(!is_leaf(old_shape[addr_table].0, e0));
            assert forall|va: u64| #[trigger] walk_kept(old_view, arena.tables@, root, va) by {
                lemma_upgrade(old_view, old_shape, root, addr_table, idx as int, entry.0, va);
            }
            lemma_upgrade(old_view, old_shape, root, addr_table, idx as int, entry.0, 0);
        }
    } else {
        proof {
            lemma_walks_kept_refl(old_view, root);
            assert(entry.0 == e0);
            assert(old_view[addr_table].update(idx as int, e0) =~= old_view[addr_table]);
            assert(old_view.insert(addr_table, old_view[addr_table].update(idx as int, e0))
                =~= old_view);
        }
    }
    proof {
        assert(!is_leaf(old_shape[addr_table].0, e0));
        assert(old_view[addr_table][idx as int] == e0);
    }
    Ok(entry.addr())
}


/// Index of `va` into the level-4 table.
pub fn p4_index(va: u64) -> (r: usize)
    ensures
        r == p4(va),
        r < 512,
{
    let r = (va >> 39u64) & 0x1FF;
    proof {
        lemma_indices(va);
    }
    r as usize
}

/// Index of `va` into the level-3 table.
pub fn p3_index(va: u64) -> (r: usize)
    ensures
        r == p3(va),
        r < 512,
{
    let r = (va >> 30u64) & 0x1FF;
    proof {
        lemma_indices(va);
    }
    r as usize
}

/// Index of `va` into the level-2 table.
pub fn p2_index(va: u64) -> (r: usize)
    ensures
        r == p2(va),
        r < 512,
{
    let r = (va >> 21u64) & 0x1FF;
    proof {
        lemma_indices(va);
    }
    r as usize
}

/// Index of `va` into the level-1 table.
pub fn p1_index(va: u64) -> (r: usize)
    ensures
        r == p1(va),
        r < 512,
{
    let r = (va >> 12u64) & 0x1FF;
    proof {
        lemma_indices(va);
    }
    r as usize
}

/// Store a leaf entry for `addr` in the table at `t`, which `addr` reads at `level`.
fn place_leaf(arena: &mut PagingArena, t: u64, level: u64, addr: u64, flags: Flags) -> (r: Result<
    (),
    PagingError,
>)
    requires
        old(arena).wf(),
        1 <= level <= 3,
        addr % (level_size(level as int) as u64) == 0,
        old(arena).shape()[t].0 == level,
        reads(old(arena).view(), old(arena).root(), addr, t, idx(addr, level as int)),
        above_ok(
            old(arena).view(),
            old(arena).root(),
            addr,
            level as int,
            flags.spec_is_write(),
            flags.spec_is_code(),
        ),
    ensures
        r is Ok,
        final(arena).wf(),
        final(arena).root() == old(arena).root(),
        final(arena).on_demand() == old(arena).on_demand(),
        final(arena).next_addr() == old(arena).next_addr(),
        forall|va: u64|
            low(va) / level_size(level as int) == low(addr) / level_size(level as int)
                ==> #[trigger] translate(final(arena).view(), old(arena).root(), va) == Some(
                Leaf {
                    entry: new_entry_bits(
                        addr,
                        level > 1,
                        flags.spec_is_code(),
                        flags.spec_is_write(),
                    ),
                    size: level_size(level as int) as u64,
                    write: flags.spec_is_write(),
                    execute: flags.spec_is_code(),
                },
            ),
        forall|va: u64|
            low(va) / level_size(level as int) != low(addr) / level_size(level as int)
                ==> #[trigger] translate(final(arena).view(), old(arena).root(), va) == translate(
                old(arena).view(),
                old(arena).root(),
                va,
            ),
{
    let ghost v0 = arena.tables@;
    let ghost sh = arena.shape@;
    let ghost root = arena.root@;
    proof {
        lemma_reads_shape_contains(v0, sh, root, addr, t, idx(addr, level as int));
    }
    let page = match arena.table_at(t) {
        Some(p) => p,
        None => {
            return Err(PagingError::NoRegionForAddr(t));
        },
    };
    assert(addr % 0x1000 == 0) by {
        assert((addr % 0x20_0000 == 0 ==> addr % 0x1000 == 0) && (addr % 0x4000_0000 == 0 ==> addr
            % 0x1000 == 0)) by (bit_vector);
    }
    let entry = PageEntry::new(addr, level > 1, flags);
    let k = if level == 3 {
        p3_index(addr)
    } else if level == 2 {
        p2_index(addr)
    } else {
        p1_index(addr)
    };
    arena.write_entry(t, page, k, entry);
    proof {
        lemma_place_leaf(v0, sh, root, addr, t, level as int, entry.0);
    }
    Ok(())
}

/// Map the page of size `level_size(level)` at `addr` (1 GiB, 2 MiB or 4 KiB
/// for levels 3, 2 and 1), creating the tables on the way.
fn map_page(arena: &mut PagingArena, addr: u64, pml4: u64, level: u64, flags: Flags) -> (r: Result<
    (),
    PagingError,
>)
    requires
        old(arena).wf(),
        old(arena).root() == pml4,
        1 <= level <= 3,
        addr % (level_size(level as int) as u64) == 0,
        old(arena).next_addr() + 0x3000 + old(arena).on_demand() * 0x1000 <= TABLE_ADDR_LIMIT,
    ensures
        final(arena).wf(),
        final(arena).root() == pml4,
        final(arena).on_demand() == old(arena).on_demand(),
        final(arena).next_addr() <= old(arena).next_addr() + 0x3000,
        r is Err ==> translate(old(arena).view(), pml4, addr) is Some && r matches Err(
            PagingError::Overlapping(_),
        ),
        r is Ok ==> forall|va: u64|
            low(va) / level_size(level as int) == low(addr) / level_size(level as int)
                ==> #[trigger] translate(final(arena).view(), pml4, va) == Some(
                Leaf {
                    entry: new_entry_bits(
                        addr,
                        level > 1,
                        flags.spec_is_code(),
                        flags.spec_is_write(),
                    ),
                    size: level_size(level as int) as u64,
                    write: flags.spec_is_write(),
                    execute: flags.spec_is_code(),
                },
            ),
        r is Ok ==> forall|va: u64|
            low(va) / level_size(level as int) != low(addr) / level_size(level as int)
                ==> #[trigger] walk_kept(old(arena).view(), final(arena).view(), pml4, va),
{
    let ghost v0 = arena.tables@;
    proof {
        lemma_indices(addr);
        shape_root(v0, arena.shape@, pml4);
    }
    // level-4 entry
    let pdpt = match write_idx(arena, addr, pml4, p4_index(addr), flags) {
        Ok(a) => a,
        Err(e) => {
            return Err(e);
        },
    };
    let ghost v1 = arena.tables@;
    if level == 3 {
        let ghost before = arena.tables@;
        let r = place_leaf(arena, pdpt, 3, addr, flags);
        proof {
            kept_after_leaf(v0, before, arena.tables@, pml4, addr, level as int);
        }
        return r;
    }
    // level-3 entry
    let pd = match write_idx(arena, addr, pdpt, p3_index(addr), flags) {
        Ok(a) => a,
        Err(e) => {
            proof {
                lemma_leaf_slot_translates(v1, arena.shape@, pml4, addr, pdpt, p3(addr));
                assert(walk_kept(v0, v1, pml4, addr));
            }
            return Err(e);
        },
    };
    let ghost v2 = arena.tables@;
    proof {
        lemma_walks_kept_trans(v0, v1, v2, pml4);
    }
    if level == 2 {
        let ghost before = arena.tables@;
        let r = place_leaf(arena, pd, 2, addr, flags);
        proof {
            kept_after_leaf(v0, before, arena.tables@, pml4, addr, level as int);
        }
        return r;
    }
    // level-2 entry
    let pt = match write_idx(arena, addr, pd, p2_index(addr), flags) {
        Ok(a) => a,
        Err(e) => {
            proof {
                lemma_leaf_slot_translates(v2, arena.shape@, pml4, addr, pd, p2(addr));
                assert(walk_kept(v0, v2, pml4, addr));
            }
            return Err(e);
        },
    };
    let ghost v3 = arena.tables@;
    proof {
        lemma_walks_kept_trans(v0, v2, v3, pml4);
    }
    let ghost before = arena.tables@;
    let r = place_leaf(arena, pt, 1, addr, flags);
    proof {
        kept_after_leaf(v0, before, arena.tables@, pml4, addr, level as int);
    }
    r
}

proof fn kept_after_leaf(v0: TableMap, v1: TableMap, v2: TableMap, root: u64, addr: u64, level: int)
    requires
        walks_kept(v0, v1, root),
        forall|va: u64|
            low(va) / level_size(level) != low(addr) / level_size(level) ==> #[trigger] translate(
                v2,
                root,
                va,
            ) == translate(v1, root, va),
    ensures
        forall|va: u64|
            low(va) / level_size(level) != low(addr) / level_size(level) ==> #[trigger] walk_kept(
                v0,
                v2,
                root,
                va,
            ),
{
    assert forall|va: u64|
        low(va) / level_size(level) != low(addr) / level_size(level) implies #[trigger] walk_kept(
        v0,
        v2,
        root,
        va,
    ) by {
        assert(walk_kept(v0, v1, root, va));
        assert(translate(v2, root, va) == translate(v1, root, va));
    }
}

proof fn shape_root(m: TableMap, sh: ShapeMap, root: u64)
    requires
        shape_ok(m, sh, root),
    ensures
        m.contains_key(root),
        sh[root] == (4int, 0int),
{
}

proof fn lemma_reads_shape_contains(m: TableMap, sh: ShapeMap, root: u64, va: u64, t: u64, k: int)
    requires
        shape_ok(m, sh, root),
        reads(m, root, va, t, k),
    ensures
        m.contains_key(t),
{
    crate::pagetable::lemma_reads_shape(m, sh, root, va, t, k);
}


/// First virtual address a layout entry maps.
pub open spec fn entry_start(e: LayoutTableEntry) -> u64 {
    spec_as_virt_addr(e.paddr)
}

/// One past the last virtual address a layout entry maps.
pub open spec fn entry_end(e: LayoutTableEntry) -> int {
    entry_start(e) + e.spec_size()
}

/// `va` lies in the virtual range of `e`.
pub open spec fn in_entry(e: LayoutTableEntry, va: u64) -> bool {
    entry_start(e) <= va < entry_end(e)
}

/// `x` lies in the low-48-bit range of `e`.
pub open spec fn in_entry_low(e: LayoutTableEntry, x: int) -> bool {
    low(entry_start(e)) <= x < low(entry_start(e)) + e.spec_size()
}

/// Entries start at 4 KiB boundaries and end within the address space.
pub open spec fn layout_ok(s: Seq<LayoutTableEntry>) -> bool {
    forall|i: int|
        0 <= i < s.len() ==> #[trigger] entry_start(s[i]) % 0x1000 == 0 && entry_end(s[i])
            <= u64::MAX
}

/// The entries' ranges neither wrap around the 48-bit address space nor
/// overlap in it.
pub open spec fn separated(s: Seq<LayoutTableEntry>) -> bool {
    &&& forall|i: int|
        0 <= i < s.len() ==> #[trigger] low(entry_start(s[i])) + s[i].spec_size()
            <= 0x1_0000_0000_0000
    &&& forall|i: int, j: int, x: int|
        0 <= i < s.len() && 0 <= j < s.len() && i != j && #[trigger] in_entry_low(s[i], x)
            ==> !#[trigger] in_entry_low(s[j], x)
}

/// The walk of `va` maps it to its own page, of 4 KiB, 2 MiB or 1 GiB,
/// with write and execute permission exactly as `flags` grant them.
pub open spec fn mapped_ok(m: TableMap, root: u64, va: u64, flags: Flags) -> bool {
    translate(m, root, va) matches Some(l) && {
        &&& (l.size == 0x1000 || l.size == 0x20_0000 || l.size == 0x4000_0000)
        &&& entry_addr(l.entry) == ((va - va % l.size) as u64) & ADDR_MASK
        &&& l.write == flags.spec_is_write()
        &&& l.execute == flags.spec_is_code()
        &&& is_write(l.entry) == flags.spec_is_write()
        &&& is_exec(l.entry) == flags.spec_is_code()
    }
}

/// `x` lies in the range of one of the first `i` entries, or in the part of
/// entry `i` below `cur`.
pub open spec fn covered(s: Seq<LayoutTableEntry>, i: int, cur: int, x: int) -> bool {
    (exists|j: int| 0 <= j < i && #[trigger] in_entry_low(s[j], x)) || (i < s.len() && low(
        entry_start(s[i]),
    ) <= x < cur)
}

/// Number of 4 KiB pages of the first `i` entries.
pub open spec fn pages_before(s: Seq<LayoutTableEntry>, i: int) -> int
    decreases i,
{
    if i <= 0 {
        0
    } else {
        pages_before(s, i - 1) + s[i - 1].len
    }
}

/// Number of 4 KiB pages of all entries.
pub open spec fn total_pages(s: Seq<LayoutTableEntry>) -> int {
    pages_before(s, s.len() as int)
}

pub proof fn lemma_pages_before_mono(s: Seq<LayoutTableEntry>, i: int, j: int)
    requires
        0 <= i <= j <= s.len(),
    ensures
        0 <= pages_before(s, i) <= pages_before(s, j),
    decreases j - i,
{
    if i < j {
        lemma_pages_before_mono(s, i, j - 1);
    } else {
        lemma_pages_before_nonneg(s, i);
    }
}

pub proof fn lemma_pages_before_nonneg(s: Seq<LayoutTableEntry>, i: int)
    ensures
        0 <= pages_before(s, i),
    decreases i,
{
    if i > 0 {
        lemma_pages_before_nonneg(s, i - 1);
    }
}

proof fn lemma_mapped_kept(m1: TableMap, m2: TableMap, root: u64, va: u64, flags: Flags)
    requires
        walk_kept(m1, m2, root, va),
        mapped_ok(m1, root, va, flags),
    ensures
        mapped_ok(m2, root, va, flags),
{
    lemma_leaf_bits(m2, root, va);
}

proof fn lemma_new_entry_bits(addr: u64, huge: bool, code: bool, write: bool)
    ensures
        ({
            let v = new_entry_bits(addr, huge, code, write);
            &&& is_present(v)
            &&& is_huge(v) == huge
            &&& is_write(v) == write
            &&& is_exec(v) == code
            &&& entry_addr(v) == addr & ADDR_MASK
        }),
{
    lemma_entry_bits(
        addr,
        if huge {
            PAGE_FLAG_HUGE
        } else {
            0
        },
        if !code {
            PAGE_FLAG_NOT_EXECUTABLE
        } else {
            0
        },
        if write {
            PAGE_FLAG_WRITE
        } else {
            0
        },
    );
}

/// `addr` is aligned to `align` and a page of that size starting at `addr`
/// ends at or before the inclusive bound `end`.
pub fn aligned_and_fits(addr: u64, end: u64, align: u64) -> (r: bool)
    requires
        addr <= end,
        align > 0,
    ensures
        r == (addr % align == 0 && addr + align - 1 <= end),
{
    addr % align == 0 && end - addr >= align - 1
}


/// Every address of the first `i` entries is mapped as its entry says.
pub open spec fn done_entries(m: TableMap, root: u64, s: Seq<LayoutTableEntry>, i: int) -> bool {
    forall|j: int, va: u64|
        0 <= j < i && #[trigger] in_entry(s[j], va) ==> mapped_ok(m, root, va, s[j].flags)
}

/// Every address of `e` below `addr` is mapped as `e` says.
pub open spec fn done_part(m: TableMap, root: u64, e: LayoutTableEntry, addr: int) -> bool {
    forall|va: u64| entry_start(e) <= va < addr ==> #[trigger] mapped_ok(m, root, va, e.flags)
}

/// Only covered addresses are mapped.
pub open spec fn only_covered(
    m: TableMap,
    root: u64,
    s: Seq<LayoutTableEntry>,
    i: int,
    cur: int,
) -> bool {
    forall|va: u64| #[trigger] translate(m, root, va) is Some ==> covered(s, i, cur, low(va))
}

proof fn lemma_low_offset(start: u64, va: u64, size: int)
    requires
        start <= va < start + size,
        low(start) + size <= 0x1_0000_0000_0000,
    ensures
        low(va) == low(start) + (va - start),
{
    let m: int = 0x1_0000_0000_0000;
    let q = start as int / m;
    let r = start as int % m;
    let d = va - start;
    assert(start as int == q * m + r && 0 <= r < m) by (nonlinear_arith)
        requires
            q == start as int / m,
            r == start as int % m,
            m > 0,
    ;
    assert((va as int) % m == r + d) by (nonlinear_arith)
        requires
            va as int == q * m + r + d,
            0 <= r,
            0 <= d,
            r + d < m,
            m > 0,
    ;
}

proof fn lemma_low_aligned(addr: u64, level: int)
    requires
        1 <= level <= 3,
        addr % (level_size(level) as u64) == 0,
    ensures
        low(addr) % level_size(level) == 0,
{
    assert(addr & 0xFFFF_FFFF_FFFFu64 == addr % 0x1_0000_0000_0000 && (addr % 0x4000_0000 == 0
        ==> (addr & 0xFFFF_FFFF_FFFFu64) % 0x4000_0000 == 0) && (addr % 0x20_0000 == 0 ==> (addr
        & 0xFFFF_FFFF_FFFFu64) % 0x20_0000 == 0) && (addr % 0x1000 == 0 ==> (addr
        & 0xFFFF_FFFF_FFFFu64) % 0x1000 == 0)) by (bit_vector);
}

proof fn lemma_block_iff(x: int, base: int, size: int)
    requires
        size > 0,
        base % size == 0,
        base >= 0,
        x >= 0,
    ensures
        (x / size == base / size) == (base <= x < base + size),
{
    assert((x / size == base / size) == (base <= x < base + size)) by (nonlinear_arith)
        requires
            size > 0,
            base % size == 0,
            base >= 0,
            x >= 0,
    ;
}

/// The next page of entry `i` is not mapped yet.
proof fn lemma_next_unmapped(
    m: TableMap,
    root: u64,
    s: Seq<LayoutTableEntry>,
    i: int,
    addr: u64,
)
    requires
        separated(s),
        0 <= i < s.len(),
        entry_start(s[i]) <= addr < entry_end(s[i]),
        only_covered(m, root, s, i, low(entry_start(s[i])) + (addr - entry_start(s[i]))),
    ensures
        translate(m, root, addr) is None,
{
    let e = s[i];
    let start = entry_start(e);
    lemma_low_offset(start, addr, e.spec_size());
    assert(in_entry_low(e, low(addr)));
    if translate(m, root, addr) is Some {
        assert(covered(s, i, low(start) + (addr - start), low(addr)));
        if exists|j: int| 0 <= j < i && #[trigger] in_entry_low(s[j], low(addr)) {
            let j = choose|j: int| 0 <= j < i && #[trigger] in_entry_low(s[j], low(addr));
            assert(!in_entry_low(s[i], low(addr)));
        }
    }
}

/// Mapping the page of size `level_size(level)` at `addr` extends the mapped
/// part of entry `i` by that page.
proof fn lemma_chunk_step(
    m0: TableMap,
    m1: TableMap,
    root: u64,
    s: Seq<LayoutTableEntry>,
    i: int,
    addr: u64,
    level: int,
)
    requires
        separated(s),
        0 <= i < s.len(),
        1 <= level <= 3,
        addr % (level_size(level) as u64) == 0,
        entry_start(s[i]) <= addr,
        addr + level_size(level) <= entry_end(s[i]),
        done_entries(m0, root, s, i),
        done_part(m0, root, s[i], addr as int),
        only_covered(m0, root, s, i, low(entry_start(s[i])) + (addr - entry_start(s[i]))),
        forall|va: u64|
            low(va) / level_size(level) == low(addr) / level_size(level) ==> #[trigger] translate(
                m1,
                root,
                va,
            ) == Some(
                Leaf {
                    entry: new_entry_bits(
                        addr,
                        level > 1,
                        s[i].flags.spec_is_code(),
                        s[i].flags.spec_is_write(),
                    ),
                    size: level_size(level) as u64,
                    write: s[i].flags.spec_is_write(),
                    execute: s[i].flags.spec_is_code(),
                },
            ),
        forall|va: u64|
            low(va) / level_size(level) != low(addr) / level_size(level) ==> #[trigger] walk_kept(
                m0,
                m1,
                root,
                va,
            ),
    ensures
        done_entries(m1, root, s, i),
        done_part(m1, root, s[i], addr + level_size(level)),
        only_covered(
            m1,
            root,
            s,
            i,
            low(entry_start(s[i])) + (addr + level_size(level) - entry_start(s[i])),
        ),
{
    let e = s[i];
    let start = entry_start(e);
    let sz = level_size(level);
    let cur = low(start) + (addr - start);
    lemma_low_offset(start, addr, e.spec_size());
    lemma_low_aligned(addr, level);
    lemma_new_entry_bits(addr, level > 1, e.flags.spec_is_code(), e.flags.spec_is_write());
    assert forall|j: int, va: u64| 0 <= j < i && #[trigger] in_entry(s[j], va) implies mapped_ok(
        m1,
        root,
        va,
        s[j].flags,
    ) by {
        lemma_low_offset(entry_start(s[j]), va, s[j].spec_size());
        assert(in_entry_low(s[j], low(va)));
        assert(!in_entry_low(s[i], low(va)));
        lemma_block_iff(low(va), low(addr), sz);
        assert(walk_kept(m0, m1, root, va));
        lemma_mapped_kept(m0, m1, root, va, s[j].flags);
    }
    assert forall|va: u64| start <= va < addr + sz implies #[trigger] mapped_ok(
        m1,
        root,
        va,
        e.flags,
    ) by {
        lemma_low_offset(start, va, e.spec_size());
        lemma_block_iff(low(va), low(addr), sz);
        if va < addr {
            assert(walk_kept(m0, m1, root, va));
            lemma_mapped_kept(m0, m1, root, va, e.flags);
        } else {
            assert(low(va) / sz == low(addr) / sz);
            let q = addr as int / sz;
            assert(addr as int == q * sz) by (nonlinear_arith)
                requires
                    (addr as int) % sz == 0,
                    q == addr as int / sz,
                    sz > 0,
            ;
            assert((va as int) % sz == va - addr) by (nonlinear_arith)
                requires
                    addr as int == q * sz,
                    addr <= va < addr + sz,
                    sz > 0,
            ;
            assert(va % (sz as u64) == (va as int) % sz);
        }
    }
    assert forall|va: u64| #[trigger] translate(m1, root, va) is Some implies covered(
        s,
        i,
        cur + sz,
        low(va),
    ) by {
        assert(0 <= low(va));
        lemma_block_iff(low(va), low(addr), sz);
        if low(va) / sz == low(addr) / sz {
        } else {
            assert(walk_kept(m0, m1, root, va));
            assert(covered(s, i, cur, low(va)));
        }
    }
}


/// The 64-bit value at guest physical address `a` in the regions, read from
/// the last region that holds all eight bytes (0 when none does).
pub open spec fn phys_u64(regs: Seq<TableRegion>, a: int) -> u64
    decreases regs.len(),
{
    if regs.len() == 0 {
        0
    } else {
        let r = regs.last();
        if r.addr <= a && a + 8 <= r.addr + r.data@.len() {
            le_u64(r.data@, a - r.addr)
        } else {
            phys_u64(regs.drop_last(), a)
        }
    }
}

/// Some region holds the whole 4 KiB page at `t`.
pub open spec fn phys_page(regs: Seq<TableRegion>, t: int) -> bool {
    exists|r: int|
        0 <= r < regs.len() && #[trigger] regs[r].addr <= t && t + 0x1000 <= regs[r].addr
            + regs[r].data@.len()
}

/// The tables the regions hold: every 4 KiB page of them, read as 512 entries.
pub open spec fn phys_tables(regs: Seq<TableRegion>) -> TableMap {
    Map::new(
        |t: u64| t % 0x1000 == 0 && phys_page(regs, t as int),
        |t: u64| Seq::new(512, |k: int| phys_u64(regs, t + k * 8)),
    )
}

proof fn lemma_contig_mono(regs: Seq<TableRegion>, r: int, x: int)
    requires
        0 <= r < x < regs.len(),
        forall|y: int| 0 <= y < regs.len() ==> #[trigger] region_ok(regs[y]),
        forall|y: int|
            0 < y < regs.len() ==> #[trigger] regs[y].addr == regs[y - 1].addr + regs[y
                - 1].data@.len(),
    ensures
        regs[x].addr >= regs[r].addr + regs[r].data@.len(),
    decreases x - r,
{
    if x > r + 1 {
        lemma_contig_mono(regs, r, x - 1);
        assert(region_ok(regs[x - 1]));
    }
}

proof fn lemma_phys_u64(regs: Seq<TableRegion>, r: int, a: int)
    requires
        0 <= r < regs.len(),
        regs[r].addr <= a,
        a + 8 <= regs[r].addr + regs[r].data@.len(),
        forall|y: int| 0 <= y < regs.len() ==> #[trigger] region_ok(regs[y]),
        forall|y: int|
            0 < y < regs.len() ==> #[trigger] regs[y].addr == regs[y - 1].addr + regs[y
                - 1].data@.len(),
    ensures
        phys_u64(regs, a) == le_u64(regs[r].data@, a - regs[r].addr),
    decreases regs.len(),
{
    if r < regs.len() - 1 {
        lemma_contig_mono(regs, r, regs.len() - 1);
        let d = regs.drop_last();
        assert forall|y: int| 0 <= y < d.len() implies #[trigger] region_ok(d[y]) by {
            assert(region_ok(regs[y]));
        }
        assert forall|y: int| 0 < y < d.len() implies #[trigger] d[y].addr == d[y - 1].addr
            + d[y - 1].data@.len() by {
            assert(regs[y].addr == regs[y - 1].addr + regs[y - 1].data@.len());
        }
        lemma_phys_u64(d, r, a);
    }
}

impl PagingArena {
    /// The regions that hold the tables, in order of address.
    pub fn into_regions(self) -> (r: Vec<TableRegion>)
        ensures
            r@ == self.regions(),
    {
        self.regions
    }

    /// The tables the regions hold contain the arena's tables.
    proof fn lemma_phys_agrees(&self)
        requires
            self.wf(),
        ensures
            forall|t: u64| #[trigger]
                self.view().contains_key(t) ==> phys_tables(self.regions()).contains_key(t)
                    && phys_tables(self.regions())[t] == self.view()[t],
    {
        let regs = self.regions@;
        assert forall|t: u64| #[trigger] self.view().contains_key(t) implies phys_tables(
            regs,
        ).contains_key(t) && phys_tables(regs)[t] == self.view()[t] by {
            assert(self.pages@.contains_key(t));
            let p = self.pages@[t];
            let r = p.region as int;
            assert(region_ok(regs[r]));
            assert(regs[r].addr <= t && t + 0x1000 <= regs[r].addr + regs[r].data@.len());
            assert(phys_page(regs, t as int));
            assert(t % 0x1000 == 0) by {
                vstd::arithmetic::div_mod::lemma_mod_multiples_vanish(
                    p.offset as int,
                    regs[r].addr as int,
                    0x1000,
                );
            }
            let pt = phys_tables(regs)[t];
            assert forall|k: int| 0 <= k < 512 implies #[trigger] pt[k] == self.view()[t][k] by {
                lemma_phys_u64(regs, r, t + k * 8);
                assert(self.tables@[t][k] == stored_entry(regs, p, k));
            }
            assert(pt.len() == 512);
            assert(self.tables@[t].len() == 512);
            assert(pt =~= self.view()[t]);
        }
    }
}


/// Build the guest's page tables: map every layout entry's range of virtual
/// addresses to the same physical addresses, with 1 GiB or 2 MiB pages where
/// alignment and size allow and 4 KiB pages elsewhere, with the entry's write
/// and execute permissions. Tables are allocated from `pml4` upwards: the
/// first region holds `initial` tables, later ones `on_demand` each.
///
/// When the entries neither overlap nor wrap around the 48-bit address
/// space, the result is `Ok`, every address of every entry is mapped as that
/// entry says, and no other address is mapped. Otherwise the result may be
/// `Overlapping`, for an address that an earlier entry mapped with a huge page.
pub fn setup(entries: &[LayoutTableEntry], pml4: u64, initial: usize, on_demand: usize) -> (r:
    Result<Vec<TableRegion>, PagingError>)
    requires
        pml4 % 0x1000 == 0,
        initial >= 1,
        on_demand >= 1,
        initial * 0x1000 <= usize::MAX,
        on_demand * 0x1000 <= usize::MAX,
        layout_ok(entries@),
        pml4 + 0x1000 * (initial + on_demand + 1 + 3 * total_pages(entries@)) <= TABLE_ADDR_LIMIT,
    ensures
        separated(entries@) ==> r is Ok,
        r is Err ==> r matches Err(PagingError::Overlapping(_)),
        r matches Ok(regs) ==> forall|k: int| 0 <= k < regs@.len() ==> #[trigger] region_ok(regs@[k]),
        r matches Ok(regs) ==> regs@.len() > 0,
        r matches Ok(regs) ==> forall|k: int|
            0 < k < regs@.len() ==> #[trigger] regs@[k].addr == regs@[k - 1].addr + regs@[k
                - 1].data@.len(),
        r matches Ok(regs) ==> separated(entries@) ==> {
            &&& forall|i: int, va: u64|
                0 <= i < entries@.len() && #[trigger] in_entry(entries@[i], va) ==> mapped_ok(
                    phys_tables(regs@),
                    pml4,
                    va,
                    entries@[i].flags,
                )
            &&& forall|va: u64| #[trigger]
                translate(phys_tables(regs@), pml4, va) is Some ==> exists|i: int|
                    0 <= i < entries@.len() && #[trigger] in_entry_low(entries@[i], low(va))
        },
{
    proof {
        lemma_pages_before_nonneg(entries@, entries@.len() as int);
    }
    let mut arena = PagingArena::new(pml4, initial, on_demand);
    let ghost s = entries@;
    let ghost sep = separated(s);
    let ghost mut chunks: int = 0;
    proof {
        lemma_pages_before_mono(s, 0, s.len() as int);
        assert forall|va: u64| #[trigger] translate(arena.view(), pml4, va) is Some implies covered(
            s,
            0,
            0,
            low(va),
        ) by {
            lemma_indices(va);
            assert(arena.view()[pml4][p4(va)] == 0u64);
            lemma_zero_absent();
        }
    }
    let mut i: usize = 0;
    while i < entries.len()
        invariant
            s == entries@,
            sep == separated(s),
            layout_ok(s),
            0 <= i <= s.len(),
            arena.wf(),
            arena.root() == pml4,
            arena.on_demand() == on_demand,
            0 <= chunks <= pages_before(s, i as int),
            pages_before(s, i as int) <= total_pages(s),
            arena.next_addr() <= pml4 + 0x1000 + 0x3000 * chunks,
            pml4 + 0x1000 * (initial + on_demand + 1 + 3 * total_pages(s)) <= TABLE_ADDR_LIMIT,
            sep ==> done_entries(arena.view(), pml4, s, i as int),
            sep ==> only_covered(
                arena.view(),
                pml4,
                s,
                i as int,
                if i < s.len() {
                    low(entry_start(s[i as int]))
                } else {
                    0
                },
            ),
        decreases s.len() - i,
    {
        let layout_entry = entries[i];
        let start = as_virt_addr(layout_entry.addr());
        let size = layout_entry.size();
        let flags = layout_entry.flags();
        proof {
            assert(entry_start(s[i as int]) % 0x1000 == 0 && entry_end(s[i as int]) <= u64::MAX);
            lemma_pages_before_mono(s, i as int + 1, s.len() as int);
        }
        if size > 0 {
            let end = start + size - 1;
            let mut addr = start;
            while addr < end
                invariant
                    s == entries@,
                    sep == separated(s),
                    layout_ok(s),
                    0 <= i < s.len(),
                    layout_entry == s[i as int],
                    start == entry_start(s[i as int]),
                    size == s[i as int].spec_size(),
                    flags == s[i as int].flags,
                    end == start + size - 1,
                    start <= addr <= start + size,
                    start % 0x1000 == 0,
                    (addr - start) % 0x1000 == 0,
                    arena.wf(),
                    arena.root() == pml4,
                    arena.on_demand() == on_demand,
                    0 <= chunks <= pages_before(s, i as int) + (addr - start) / 0x1000,
                    pages_before(s, i as int + 1) <= total_pages(s),
                    arena.next_addr() <= pml4 + 0x1000 + 0x3000 * chunks,
                    pml4 + 0x1000 * (initial + on_demand + 1 + 3 * total_pages(s))
                        <= TABLE_ADDR_LIMIT,
                    sep ==> done_entries(arena.view(), pml4, s, i as int),
                    sep ==> done_part(arena.view(), pml4, s[i as int], addr as int),
                    sep ==> only_covered(
                        arena.view(),
                        pml4,
                        s,
                        i as int,
                        low(start) + (addr - start),
                    ),
                decreases start + size - addr,
            {
                let level: u64 = if aligned_and_fits(addr, end, PAGE_1GIB) {
                    3
                } else if aligned_and_fits(addr, end, PAGE_2MIB) {
                    2
                } else {
                    1
                };
                let step: u64 = if level == 3 {
                    PAGE_1GIB
                } else if level == 2 {
                    PAGE_2MIB
                } else {
                    PAGE_4KIB
                };
                proof {
                    assert(s[i as int].len * 0x1000 == size);
                    assert(addr % 0x1000 == 0) by {
                        vstd::arithmetic::div_mod::lemma_mod_add_multiples_vanish(0, 0x1000);
                        assert((addr - start) % 0x1000 == 0);
                        assert(addr % 0x1000 == 0) by (nonlinear_arith)
                            requires
                                (addr - start) % 0x1000 == 0,
                                start % 0x1000 == 0,
                                start <= addr,
                        ;
                    }
                    assert(addr + step <= start + size) by {
                        if level == 1 {
                            assert(size % 0x1000 == 0) by (nonlinear_arith)
                                requires
                                    size == s[i as int].len * 0x1000,
                            ;
                            assert(addr + 0x1000 <= start + size) by (nonlinear_arith)
                                requires
                                    (addr - start) % 0x1000 == 0,
                                    size % 0x1000 == 0,
                                    addr < start + size - 1,
                                    start <= addr,
                            ;
                        }
                    }
                    lemma_pages_before_mono(s, i as int, s.len() as int);
                    assert((addr - start) / 0x1000 < s[i as int].len) by (nonlinear_arith)
                        requires
                            addr < start + size,
                            start <= addr,
                            size == s[i as int].len * 0x1000,
                    ;
                    assert(pages_before(s, i as int + 1) == pages_before(s, i as int)
                        + s[i as int].len);
                    assert(arena.next_addr() + 0x3000 + arena.on_demand() * 0x1000
                        <= TABLE_ADDR_LIMIT);
                    if sep {
                        lemma_next_unmapped(arena.view(), pml4, s, i as int, addr);
                    }
                }
                let ghost m0 = arena.view();
                match map_page(&mut arena, addr, pml4, level, flags) {
                    Ok(_) => {},
                    Err(e) => {
                        return Err(e);
                    },
                }
                proof {
                    if sep {
                        lemma_chunk_step(m0, arena.view(), pml4, s, i as int, addr, level as int);
                    }
                    assert((addr + step - start) / 0x1000 >= (addr - start) / 0x1000 + 1)
                        by (nonlinear_arith)
                        requires
                            step >= 0x1000,
                            start <= addr,
                    ;
                    assert((addr + step - start) % 0x1000 == 0) by (nonlinear_arith)
                        requires
                            (addr - start) % 0x1000 == 0,
                            step == 0x1000 || step == 0x20_0000 || step == 0x4000_0000,
                            start <= addr,
                    ;
                    chunks = chunks + 1;
                }
                addr = addr + step;
            }
            proof {
                assert(addr == start + size) by (nonlinear_arith)
                    requires
                        (addr - start) % 0x1000 == 0,
                        size == s[i as int].len * 0x1000,
                        addr >= end,
                        end == start + size - 1,
                        addr <= start + size,
                        start <= addr,
                ;
                assert((addr - start) / 0x1000 == s[i as int].len) by (nonlinear_arith)
                    requires
                        addr - start == s[i as int].len * 0x1000,
                ;
            }
        }
        proof {
            assert(pages_before(s, i as int + 1) == pages_before(s, i as int) + s[i as int].len);
            if sep {
                let e = s[i as int];
                assert forall|j: int, va: u64|
                    0 <= j < i + 1 && #[trigger] in_entry(s[j], va) implies mapped_ok(
                    arena.view(),
                    pml4,
                    va,
                    s[j].flags,
                ) by {
                    if j == i {
                        assert(entry_start(e) <= va < entry_start(e) + e.spec_size());
                    }
                }
                let next_cur = if i + 1 < s.len() {
                    low(entry_start(s[i + 1]))
                } else {
                    0
                };
                assert forall|va: u64| #[trigger] translate(arena.view(), pml4, va) is Some implies covered(
                    s,
                    i + 1,
                    next_cur,
                    low(va),
                ) by {
                    assert(covered(s, i as int, low(entry_start(e)) + e.spec_size(), low(va)));
                    if low(entry_start(e)) <= low(va) < low(entry_start(e)) + e.spec_size() {
                        assert(in_entry_low(s[i as int], low(va)));
                    }
                }
            }
        }
        i = i + 1;
    }
    proof {
        arena.lemma_phys_agrees();
        if sep {
            let regs = arena.regions();
            assert forall|va: u64|
                #![trigger translate(phys_tables(regs), pml4, va)]
                translate(phys_tables(regs), pml4, va) == translate(arena.view(), pml4, va) by {
                lemma_translate_sub(arena.view(), phys_tables(regs), arena.shape(), pml4, va);
            }
            assert forall|j: int, va: u64|
                0 <= j < s.len() && #[trigger] in_entry(s[j], va) implies mapped_ok(
                phys_tables(regs),
                pml4,
                va,
                s[j].flags,
            ) by {
                assert(translate(phys_tables(regs), pml4, va) == translate(arena.view(), pml4, va));
            }
            assert forall|va: u64| #[trigger]
                translate(phys_tables(regs), pml4, va) is Some implies exists|j: int|
                0 <= j < s.len() && #[trigger] in_entry_low(s[j], low(va)) by {
                assert(translate(phys_tables(regs), pml4, va) == translate(arena.view(), pml4, va));
                assert(covered(s, s.len() as int, 0, low(va)));
            }
        }
    }
    proof {
        arena.lemma_regions_ok();
    }
    Ok(arena.into_regions())
}

impl PagingArena {
    proof fn lemma_regions_ok(&self)
        requires
            self.wf(),
        ensures
            forall|k: int| 0 <= k < self.regions().len() ==> #[trigger] region_ok(self.regions()[k]),
            self.regions().len() > 0,
            forall|k: int|
                0 < k < self.regions().len() ==> #[trigger] self.regions()[k].addr
                    == self.regions()[k - 1].addr + self.regions()[k - 1].data@.len(),
    {
    }
}

} // verus!
