//! Mathematical model of x86-64 four-level page tables: entries, the hardware
//! page walk, and the lemmas that say which walks a single table write affects.
use vstd::prelude::*;

verus! {

/// Entry bit: the entry is present.
pub const PAGE_FLAG_PRESENT: u64 = 1;
/// Entry bit: writes are allowed.
pub const PAGE_FLAG_WRITE: u64 = 0x2;
/// Entry bit: user-mode access.
pub const PAGE_FLAG_USER: u64 = 0x4;
/// Entry bit: the entry maps a huge page instead of pointing to a table.
pub const PAGE_FLAG_HUGE: u64 = 0x80;
/// Entry bit: instruction fetches are forbidden.
pub const PAGE_FLAG_NOT_EXECUTABLE: u64 = 0x8000_0000_0000_0000;
/// Physical address bits 51:12 of an entry.
pub const ADDR_MASK: u64 = 0x000F_FFFF_FFFF_F000;

/// Number of entries in one table.
pub const TABLE_ENTRIES: u64 = 512;

pub open spec fn is_present(e: u64) -> bool {
    e & PAGE_FLAG_PRESENT != 0
}

pub open spec fn is_huge(e: u64) -> bool {
    e & PAGE_FLAG_HUGE != 0
}

pub open spec fn is_write(e: u64) -> bool {
    e & PAGE_FLAG_WRITE != 0
}

pub open spec fn is_exec(e: u64) -> bool {
    e & PAGE_FLAG_NOT_EXECUTABLE == 0
}

pub open spec fn entry_addr(e: u64) -> u64 {
    e & ADDR_MASK
}

/// Index into the level-4 table (bits 47:39 of the virtual address).
pub open spec fn p4(va: u64) -> int {
    ((va >> 39u64) & 0x1FFu64) as int
}

/// Index into the level-3 table (bits 38:30).
pub open spec fn p3(va: u64) -> int {
    ((va >> 30u64) & 0x1FFu64) as int
}

/// Index into the level-2 table (bits 29:21).
pub open spec fn p2(va: u64) -> int {
    ((va >> 21u64) & 0x1FFu64) as int
}

/// Index into the level-1 table (bits 20:12).
pub open spec fn p1(va: u64) -> int {
    ((va >> 12u64) & 0x1FFu64) as int
}

/// Each table index of an address lies in 0..512.
pub proof fn lemma_indices(va: u64)
    ensures
        0 <= p4(va) < 512,
        0 <= p3(va) < 512,
        0 <= p2(va) < 512,
        0 <= p1(va) < 512,
{
    assert(((va >> 39u64) & 0x1FFu64) < 512 && ((va >> 30u64) & 0x1FFu64) < 512 && ((va >> 21u64)
        & 0x1FFu64) < 512 && ((va >> 12u64) & 0x1FFu64) < 512) by (bit_vector);
}

/// An entry of zero is not present.
pub proof fn lemma_zero_absent()
    ensures
        !is_present(0),
{
    assert(0u64 & 1u64 == 0) by (bit_vector);
}

/// The table index that `va` selects at `level` (4 is the root).
pub open spec fn idx(va: u64, level: int) -> int {
    if level == 4 {
        p4(va)
    } else if level == 3 {
        p3(va)
    } else if level == 2 {
        p2(va)
    } else {
        p1(va)
    }
}

/// The indices that lead from the root to the table of `level` that `va` uses.
pub open spec fn prefix(va: u64, level: int) -> int {
    if level == 4 {
        0
    } else if level == 3 {
        p4(va)
    } else if level == 2 {
        p4(va) * 512 + p3(va)
    } else {
        (p4(va) * 512 + p3(va)) * 512 + p2(va)
    }
}

/// Bytes of memory one entry of a table at `level` covers.
pub open spec fn level_size(level: int) -> int {
    if level == 3 {
        0x4000_0000
    } else if level == 2 {
        0x20_0000
    } else {
        0x1000
    }
}

/// The low 48 bits of a virtual address: the part the page walk looks at.
pub open spec fn low(va: u64) -> int {
    (va as int) % 0x1_0000_0000_0000
}

/// Tables by physical address, each a sequence of 512 entries.
pub type TableMap = Map<u64, Seq<u64>>;

/// Level and index prefix of each table.
pub type ShapeMap = Map<u64, (int, int)>;

/// The outcome of a successful walk: the entry that maps the page, the size of
/// that page, and whether every entry on the way allows writes and execution.
#[derive(PartialEq, Eq, Structural)]
pub struct Leaf {
    pub entry: u64,
    pub size: u64,
    pub write: bool,
    pub execute: bool,
}

pub open spec fn ent(m: TableMap, t: u64, i: int) -> u64 {
    m[t][i]
}

/// The hardware page walk of `va` from the root table at `root`.
pub open spec fn translate(m: TableMap, root: u64, va: u64) -> Option<Leaf> {
    if !m.contains_key(root) {
        None
    } else {
        let e4 = ent(m, root, p4(va));
        if !is_present(e4) || is_huge(e4) || !m.contains_key(entry_addr(e4)) {
            None
        } else {
            let e3 = ent(m, entry_addr(e4), p3(va));
            let w3 = is_write(e4) && is_write(e3);
            let x3 = is_exec(e4) && is_exec(e3);
            if !is_present(e3) {
                None
            } else if is_huge(e3) {
                Some(Leaf { entry: e3, size: 0x4000_0000, write: w3, execute: x3 })
            } else if !m.contains_key(entry_addr(e3)) {
                None
            } else {
                let e2 = ent(m, entry_addr(e3), p2(va));
                let w2 = w3 && is_write(e2);
                let x2 = x3 && is_exec(e2);
                if !is_present(e2) {
                    None
                } else if is_huge(e2) {
                    Some(Leaf { entry: e2, size: 0x20_0000, write: w2, execute: x2 })
                } else if !m.contains_key(entry_addr(e2)) {
                    None
                } else {
                    let e1 = ent(m, entry_addr(e2), p1(va));
                    if !is_present(e1) {
                        None
                    } else {
                        Some(
                            Leaf {
                                entry: e1,
                                size: 0x1000,
                                write: w2 && is_write(e1),
                                execute: x2 && is_exec(e1),
                            },
                        )
                    }
                }
            }
        }
    }
}

/// The walk of `va` reads entry `k` of table `t`.
pub open spec fn reads(m: TableMap, root: u64, va: u64, t: u64, k: int) -> bool {
    m.contains_key(root) && {
        let e4 = ent(m, root, p4(va));
        ||| (t == root && k == p4(va))
        ||| (is_present(e4) && !is_huge(e4) && m.contains_key(entry_addr(e4)) && {
            let e3 = ent(m, entry_addr(e4), p3(va));
            ||| (t == entry_addr(e4) && k == p3(va))
            ||| (is_present(e3) && !is_huge(e3) && m.contains_key(entry_addr(e3)) && {
                let e2 = ent(m, entry_addr(e3), p2(va));
                ||| (t == entry_addr(e3) && k == p2(va))
                ||| (is_present(e2) && !is_huge(e2) && m.contains_key(entry_addr(e2)) && t
                    == entry_addr(e2) && k == p1(va))
            })
        })
    }
}

/// An entry of a table at `level` that ends the walk.
pub open spec fn is_leaf(level: int, e: u64) -> bool {
    level == 1 || ((level == 2 || level == 3) && is_huge(e))
}

/// Every table has 512 entries and a level with the index prefix that leads to
/// it; every present entry that is not a leaf points to a table one level
/// below, whose prefix extends the parent's by the entry's index.
pub open spec fn shape_ok(m: TableMap, sh: ShapeMap, root: u64) -> bool {
    &&& m.contains_key(root)
    &&& sh.contains_key(root)
    &&& sh[root] == (4int, 0int)
    &&& forall|t: u64| #[trigger] m.contains_key(t) ==> sh.contains_key(t)
    &&& forall|t: u64| #[trigger]
        m.contains_key(t) ==> {
            &&& m[t].len() == 512
            &&& 1 <= sh[t].0 <= 4
            &&& 0 <= sh[t].1
        }
    &&& forall|t: u64, k: int|
        #![trigger m[t][k]]
        m.contains_key(t) && 0 <= k < 512 && is_present(m[t][k]) && !is_leaf(sh[t].0, m[t][k])
            ==> {
            &&& sh[t].0 > 1
            &&& !(sh[t].0 == 4 && is_huge(m[t][k]))
            &&& m.contains_key(entry_addr(m[t][k]))
            &&& sh[entry_addr(m[t][k])] == (sh[t].0 - 1, sh[t].1 * 512 + k)
        }
}

/// Writing entry `k` of table `t` changes no walk that does not read it.
pub proof fn lemma_write_frame(m: TableMap, root: u64, t: u64, k: int, v: u64, va: u64)
    requires
        m.contains_key(t),
        m[t].len() == 512,
        0 <= k < 512,
        !reads(m, root, va, t, k),
    ensures
        ({
            let m2 = m.insert(t, m[t].update(k, v));
            &&& translate(m2, root, va) == translate(m, root, va)
            &&& forall|t2: u64, k2: int|
                #[trigger] reads(m2, root, va, t2, k2) == reads(m, root, va, t2, k2)
        }),
{
    let m2 = m.insert(t, m[t].update(k, v));
    assert(0 <= p4(va) < 512 && 0 <= p3(va) < 512 && 0 <= p2(va) < 512 && 0 <= p1(va) < 512)
        by (bit_vector);
    assert(forall|x: u64, j: int|
        (x != t || j != k) && m.contains_key(x) && 0 <= j < m[x].len() ==> #[trigger] m2[x][j]
            == m[x][j]);
    assert(m2.dom() == m.dom());
}

/// A walk that reads entry `k` of table `t` follows the shape: the level of
/// `t` is reached along the index prefix of `va`, and `k` is the index of
/// `va` at that level.
pub proof fn lemma_reads_shape(m: TableMap, sh: ShapeMap, root: u64, va: u64, t: u64, k: int)
    requires
        shape_ok(m, sh, root),
        reads(m, root, va, t, k),
    ensures
        m.contains_key(t),
        sh[t].1 == prefix(va, sh[t].0),
        k == idx(va, sh[t].0),
        sh[t].0 == 4 ==> t == root,
{
    lemma_indices(va);
    let e4 = m[root][p4(va)];
    if t == root && k == p4(va) {
    } else {
        let t3 = entry_addr(e4);
        assert(m[root][p4(va)] == e4);
        assert(sh[t3] == (3int, p4(va)));
        let e3 = m[t3][p3(va)];
        if t == t3 && k == p3(va) {
        } else {
            let t2 = entry_addr(e3);
            assert(sh[t2] == (2int, p4(va) * 512 + p3(va)));
            let e2 = m[t2][p2(va)];
            if t == t2 && k == p2(va) {
            } else {
                let t1 = entry_addr(e2);
                assert(sh[t1] == (1int, (p4(va) * 512 + p3(va)) * 512 + p2(va)));
            }
        }
    }
}

/// Two addresses whose walks agree on the prefix and index at a level lie in
/// the same block of `level_size(level)` bytes of the low 48 bits.
pub proof fn lemma_same_slot_same_block(a: u64, b: u64, level: int)
    requires
        1 <= level <= 3,
        prefix(a, level) == prefix(b, level),
        idx(a, level) == idx(b, level),
    ensures
        low(a) / level_size(level) == low(b) / level_size(level),
{
    lemma_indices(a);
    lemma_indices(b);
    lemma_low_blocks(a);
    lemma_low_blocks(b);
    if level == 1 {
        lemma_prefix_digits(p4(a), p3(a), p2(a), p4(b), p3(b), p2(b));
    } else if level == 2 {
        lemma_prefix_digits2(p4(a), p3(a), p4(b), p3(b));
    }
}

proof fn lemma_prefix_digits2(a4: int, a3: int, b4: int, b3: int)
    requires
        0 <= a4 < 512,
        0 <= a3 < 512,
        0 <= b4 < 512,
        0 <= b3 < 512,
        a4 * 512 + a3 == b4 * 512 + b3,
    ensures
        a4 == b4 && a3 == b3,
{
    assert(a4 == b4 && a3 == b3) by (nonlinear_arith)
        requires
            0 <= a4 < 512,
            0 <= a3 < 512,
            0 <= b4 < 512,
            0 <= b3 < 512,
            a4 * 512 + a3 == b4 * 512 + b3,
    ;
}

proof fn lemma_prefix_digits(a4: int, a3: int, a2: int, b4: int, b3: int, b2: int)
    requires
        0 <= a4 < 512,
        0 <= a3 < 512,
        0 <= a2 < 512,
        0 <= b4 < 512,
        0 <= b3 < 512,
        0 <= b2 < 512,
        (a4 * 512 + a3) * 512 + a2 == (b4 * 512 + b3) * 512 + b2,
    ensures
        a4 == b4 && a3 == b3 && a2 == b2,
{
    assert(a2 == b2 && a4 * 512 + a3 == b4 * 512 + b3) by (nonlinear_arith)
        requires
            0 <= a2 < 512,
            0 <= b2 < 512,
            0 <= a4 * 512 + a3,
            0 <= b4 * 512 + b3,
            (a4 * 512 + a3) * 512 + a2 == (b4 * 512 + b3) * 512 + b2,
    ;
    lemma_prefix_digits2(a4, a3, b4, b3);
}

/// The blocks of the low 48 bits expressed by the table indices.
pub proof fn lemma_low_blocks(va: u64)
    ensures
        low(va) / 0x4000_0000 == p4(va) * 512 + p3(va),
        low(va) / 0x20_0000 == (p4(va) * 512 + p3(va)) * 512 + p2(va),
        low(va) / 0x1000 == ((p4(va) * 512 + p3(va)) * 512 + p2(va)) * 512 + p1(va),
{
    let l = va & 0xFFFF_FFFF_FFFFu64;
    assert(va & 0xFFFF_FFFF_FFFFu64 == va % 0x1_0000_0000_0000) by (bit_vector);
    assert(l / 0x4000_0000 == ((va >> 39u64) & 0x1FFu64) * 512 + ((va >> 30u64) & 0x1FFu64))
        by (bit_vector)
        requires
            l == va & 0xFFFF_FFFF_FFFFu64,
    ;
    assert(l / 0x20_0000 == (((va >> 39u64) & 0x1FFu64) * 512 + ((va >> 30u64) & 0x1FFu64)) * 512
        + ((va >> 21u64) & 0x1FFu64)) by (bit_vector)
        requires
            l == va & 0xFFFF_FFFF_FFFFu64,
    ;
    assert(l / 0x1000 == ((((va >> 39u64) & 0x1FFu64) * 512 + ((va >> 30u64) & 0x1FFu64)) * 512
        + ((va >> 21u64) & 0x1FFu64)) * 512 + ((va >> 12u64) & 0x1FFu64)) by (bit_vector)
        requires
            l == va & 0xFFFF_FFFF_FFFFu64,
    ;
}


/// A table of 512 entries that are all zero.
pub open spec fn zero_table() -> Seq<u64> {
    Seq::new(512, |i: int| 0u64)
}

/// Adding a fresh table that nothing points to changes no walk.
pub proof fn lemma_add_table(m: TableMap, sh: ShapeMap, root: u64, c: u64, s: (int, int))
    requires
        shape_ok(m, sh, root),
        !m.contains_key(c),
        1 <= s.0 <= 3,
        0 <= s.1,
    ensures
        shape_ok(m.insert(c, zero_table()), sh.insert(c, s), root),
        forall|va: u64| #[trigger]
            translate(m.insert(c, zero_table()), root, va) == translate(m, root, va),
        forall|va: u64, t: u64, k: int| #[trigger]
            reads(m.insert(c, zero_table()), root, va, t, k) ==> reads(m, root, va, t, k),
{
    let m2 = m.insert(c, zero_table());
    let sh2 = sh.insert(c, s);
    lemma_zero_absent();
    assert forall|t: u64, k: int|
        #![trigger m2[t][k]]
        m2.contains_key(t) && 0 <= k < 512 && is_present(m2[t][k]) && !is_leaf(sh2[t].0, m2[t][k])
            implies {
        &&& sh2[t].0 > 1
        &&& !(sh2[t].0 == 4 && is_huge(m2[t][k]))
        &&& m2.contains_key(entry_addr(m2[t][k]))
        &&& sh2[entry_addr(m2[t][k])] == (sh2[t].0 - 1, sh2[t].1 * 512 + k)
    } by {
        if t == c {
            assert(m2[t][k] == 0u64);
        } else {
            assert(m2[t][k] == m[t][k]);
            assert(m.contains_key(entry_addr(m[t][k])));
        }
    }
    assert forall|va: u64| #[trigger] translate(m2, root, va) == translate(m, root, va) by {
        lemma_walk_avoids(m, sh, root, c, va);
    }
    assert forall|va: u64, t: u64, k: int| #[trigger]
        reads(m2, root, va, t, k) implies reads(m, root, va, t, k) by {
        lemma_walk_avoids(m, sh, root, c, va);
    }
}

/// The walk in a well-shaped map never follows an entry to a table outside it.
proof fn lemma_walk_avoids(m: TableMap, sh: ShapeMap, root: u64, c: u64, va: u64)
    requires
        shape_ok(m, sh, root),
        !m.contains_key(c),
    ensures
        translate(m.insert(c, zero_table()), root, va) == translate(m, root, va),
        forall|t: u64, k: int| #[trigger]
            reads(m.insert(c, zero_table()), root, va, t, k) == reads(m, root, va, t, k),
{
    let m2 = m.insert(c, zero_table());
    assert(0 <= p4(va) < 512 && 0 <= p3(va) < 512 && 0 <= p2(va) < 512 && 0 <= p1(va) < 512)
        by (bit_vector);
    assert(m2[root] == m[root]);
    let e4 = m[root][p4(va)];
    if is_present(e4) && !is_huge(e4) {
        assert(m.contains_key(entry_addr(e4)));
        assert(m2[entry_addr(e4)] == m[entry_addr(e4)]);
        let e3 = m[entry_addr(e4)][p3(va)];
        if is_present(e3) && !is_huge(e3) {
            assert(m.contains_key(entry_addr(e3)));
            assert(m2[entry_addr(e3)] == m[entry_addr(e3)]);
            let e2 = m[entry_addr(e3)][p2(va)];
            if is_present(e2) && !is_huge(e2) {
                assert(m.contains_key(entry_addr(e2)));
                assert(m2[entry_addr(e2)] == m[entry_addr(e2)]);
            }
        }
    }
}

/// A leaf's write and execute permission imply the leaf entry's own bits.
pub proof fn lemma_leaf_bits(m: TableMap, root: u64, va: u64)
    ensures
        translate(m, root, va) matches Some(l) ==> {
            &&& is_present(l.entry)
            &&& (l.write ==> is_write(l.entry))
            &&& (l.execute ==> is_exec(l.entry))
            &&& (l.size == 0x1000 || l.size == 0x20_0000 || l.size == 0x4000_0000)
        },
{
}

/// The entries above `level` on the walk of `va` allow writes when `w` and
/// execution when `x` holds.
pub open spec fn above_ok(m: TableMap, root: u64, va: u64, level: int, w: bool, x: bool) -> bool {
    let e4 = ent(m, root, p4(va));
    let e3 = ent(m, entry_addr(e4), p3(va));
    let e2 = ent(m, entry_addr(e3), p2(va));
    &&& (level <= 3 ==> (w ==> is_write(e4)) && (x ==> is_exec(e4)))
    &&& (level <= 2 ==> (w ==> is_write(e3)) && (x ==> is_exec(e3)))
    &&& (level <= 1 ==> (w ==> is_write(e2)) && (x ==> is_exec(e2)))
}

/// Walks that read the same table at a level agree on all entries above it.
proof fn lemma_same_table_same_path(
    m: TableMap,
    sh: ShapeMap,
    root: u64,
    a: u64,
    b: u64,
    t: u64,
    ka: int,
    kb: int,
)
    requires
        shape_ok(m, sh, root),
        reads(m, root, a, t, ka),
        reads(m, root, b, t, kb),
    ensures
        sh[t].0 <= 3 ==> p4(a) == p4(b),
        sh[t].0 <= 2 ==> p3(a) == p3(b),
        sh[t].0 <= 1 ==> p2(a) == p2(b),
{
    lemma_reads_shape(m, sh, root, a, t, ka);
    lemma_reads_shape(m, sh, root, b, t, kb);
    lemma_indices(a);
    lemma_indices(b);
    if sh[t].0 == 1 {
        lemma_prefix_digits(p4(a), p3(a), p2(a), p4(b), p3(b), p2(b));
    } else if sh[t].0 == 2 {
        lemma_prefix_digits2(p4(a), p3(a), p4(b), p3(b));
    }
}

/// Writing a leaf entry at a slot makes every walk through that slot end in
/// the new leaf, with the permissions of the leaf when the entries above it
/// allow at least as much.
pub proof fn lemma_write_leaf(
    m: TableMap,
    sh: ShapeMap,
    root: u64,
    t: u64,
    k: int,
    v: u64,
    va0: u64,
    va: u64,
)
    requires
        shape_ok(m, sh, root),
        reads(m, root, va0, t, k),
        reads(m, root, va, t, k),
        1 <= sh[t].0 <= 3,
        is_present(v),
        is_huge(v) == (sh[t].0 > 1),
        above_ok(m, root, va0, sh[t].0, is_write(v), is_exec(v)),
    ensures
        translate(m.insert(t, m[t].update(k, v)), root, va) == Some(
            Leaf {
                entry: v,
                size: level_size(sh[t].0) as u64,
                write: is_write(v),
                execute: is_exec(v),
            },
        ),
{
    let m2 = m.insert(t, m[t].update(k, v));
    lemma_same_table_same_path(m, sh, root, va0, va, t, k, k);
    lemma_reads_shape(m, sh, root, va, t, k);
    assert(0 <= p4(va) < 512 && 0 <= p3(va) < 512 && 0 <= p2(va) < 512 && 0 <= p1(va) < 512)
        by (bit_vector);
    assert(forall|x: u64, j: int|
        (x != t || j != k) && m.contains_key(x) && 0 <= j < 512 ==> #[trigger] m2[x][j]
            == m[x][j]);
    assert(m2[t][k] == v);
    let e4 = m[root][p4(va)];
    if sh[t].0 <= 3 {
        assert(t != root);
        let e3 = m[entry_addr(e4)][p3(va)];
        if sh[t].0 <= 2 {
            assert(t != entry_addr(e4)) by {
                if t == entry_addr(e4) {
                    assert(sh[entry_addr(e4)].0 == 3);
                }
            }
            if sh[t].0 <= 1 {
                assert(t != entry_addr(e3)) by {
                    if t == entry_addr(e3) {
                        assert(sh[entry_addr(e3)].0 == 2);
                    }
                }
            }
        }
    }
}

/// Raising the permission bits of a present entry that points to a table
/// keeps every walk's leaf, and only raises its permissions.
pub proof fn lemma_upgrade(m: TableMap, sh: ShapeMap, root: u64, t: u64, k: int, v: u64, va: u64)
    requires
        shape_ok(m, sh, root),
        m.contains_key(t),
        0 <= k < 512,
        is_present(m[t][k]),
        !is_leaf(sh[t].0, m[t][k]),
        is_present(v),
        is_huge(v) == is_huge(m[t][k]),
        entry_addr(v) == entry_addr(m[t][k]),
        is_write(m[t][k]) ==> is_write(v),
        is_exec(m[t][k]) ==> is_exec(v),
    ensures
        ({
            let m2 = m.insert(t, m[t].update(k, v));
            &&& shape_ok(m2, sh, root)
            &&& translate(m2, root, va) matches Some(l2) ==> translate(m, root, va) matches Some(
                l1,
            ) && l2.entry == l1.entry && l2.size == l1.size
            &&& translate(m, root, va) matches Some(l1) ==> translate(m2, root, va) matches Some(
                l2,
            ) && (l1.write ==> l2.write) && (l1.execute ==> l2.execute)
            &&& forall|t2: u64, k2: int| #[trigger]
                reads(m2, root, va, t2, k2) == reads(m, root, va, t2, k2)
        }),
{
    let m2 = m.insert(t, m[t].update(k, v));
    assert(0 <= p4(va) < 512 && 0 <= p3(va) < 512 && 0 <= p2(va) < 512 && 0 <= p1(va) < 512)
        by (bit_vector);
    assert(forall|x: u64, j: int|
        (x != t || j != k) && m.contains_key(x) && 0 <= j < 512 ==> #[trigger] m2[x][j]
            == m[x][j]);
    assert(m2[t][k] == v);
    assert(m2.dom() == m.dom());
    assert forall|x: u64, j: int|
        #![trigger m2[x][j]]
        m2.contains_key(x) && 0 <= j < 512 && is_present(m2[x][j]) && !is_leaf(sh[x].0, m2[x][j])
            implies {
        &&& sh[x].0 > 1
        &&& !(sh[x].0 == 4 && is_huge(m2[x][j]))
        &&& m2.contains_key(entry_addr(m2[x][j]))
        &&& sh[entry_addr(m2[x][j])] == (sh[x].0 - 1, sh[x].1 * 512 + j)
    } by {
        if x == t && j == k {
            assert(m[x][j] == m[t][k]);
        } else {
            assert(m2[x][j] == m[x][j]);
        }
    }
}


/// Linking an empty table into an empty slot of the level above keeps every
/// walk, and keeps the map well-shaped.
pub proof fn lemma_link_table(
    m: TableMap,
    sh: ShapeMap,
    root: u64,
    t: u64,
    k: int,
    v: u64,
    va: u64,
)
    requires
        shape_ok(m, sh, root),
        m.contains_key(t),
        0 <= k < 512,
        2 <= sh[t].0 <= 4,
        !is_present(m[t][k]),
        is_present(v),
        !is_huge(v),
        m.contains_key(entry_addr(v)),
        entry_addr(v) != t,
        m[entry_addr(v)] == zero_table(),
        sh[entry_addr(v)] == (sh[t].0 - 1, sh[t].1 * 512 + k),
    ensures
        ({
            let m2 = m.insert(t, m[t].update(k, v));
            &&& shape_ok(m2, sh, root)
            &&& translate(m2, root, va) == translate(m, root, va)
        }),
{
    let m2 = m.insert(t, m[t].update(k, v));
    let c = entry_addr(v);
    lemma_zero_absent();
    assert(0 <= p4(va) < 512 && 0 <= p3(va) < 512 && 0 <= p2(va) < 512 && 0 <= p1(va) < 512)
        by (bit_vector);
    assert(forall|x: u64, j: int|
        (x != t || j != k) && m.contains_key(x) && 0 <= j < 512 ==> #[trigger] m2[x][j]
            == m[x][j]);
    assert(m2[t][k] == v);
    assert(m2.dom() == m.dom());
    assert(m2[c] == m[c]);
    assert(forall|j: int| 0 <= j < 512 ==> #[trigger] m2[c][j] == 0u64);
    assert forall|x: u64, j: int|
        #![trigger m2[x][j]]
        m2.contains_key(x) && 0 <= j < 512 && is_present(m2[x][j]) && !is_leaf(sh[x].0, m2[x][j])
            implies {
        &&& sh[x].0 > 1
        &&& !(sh[x].0 == 4 && is_huge(m2[x][j]))
        &&& m2.contains_key(entry_addr(m2[x][j]))
        &&& sh[entry_addr(m2[x][j])] == (sh[x].0 - 1, sh[x].1 * 512 + j)
    } by {
        if x == t && j == k {
        } else {
            assert(m2[x][j] == m[x][j]);
        }
    }
    if reads(m, root, va, t, k) {
        lemma_reads_shape(m, sh, root, va, t, k);
    } else {
        lemma_write_frame(m, root, t, k, v, va);
    }
}


/// The walk of `va` in `m2` ends at the same leaf as in `m1`, or fails in
/// both, and its permissions are at least those in `m1`.
pub open spec fn walk_kept(m1: TableMap, m2: TableMap, root: u64, va: u64) -> bool {
    match translate(m1, root, va) {
        None => translate(m2, root, va) is None,
        Some(l1) => translate(m2, root, va) matches Some(l2) && l2.entry == l1.entry && l2.size
            == l1.size && (l1.write ==> l2.write) && (l1.execute ==> l2.execute),
    }
}

/// Every walk is kept from `m1` to `m2`.
pub open spec fn walks_kept(m1: TableMap, m2: TableMap, root: u64) -> bool {
    forall|va: u64| #[trigger] walk_kept(m1, m2, root, va)
}

pub proof fn lemma_walks_kept_trans(m1: TableMap, m2: TableMap, m3: TableMap, root: u64)
    requires
        walks_kept(m1, m2, root),
        walks_kept(m2, m3, root),
    ensures
        walks_kept(m1, m3, root),
{
    assert forall|va: u64| #[trigger] walk_kept(m1, m3, root, va) by {
        assert(walk_kept(m1, m2, root, va));
        assert(walk_kept(m2, m3, root, va));
    }
}

pub proof fn lemma_walks_kept_refl(m: TableMap, root: u64)
    ensures
        walks_kept(m, m, root),
{
    assert forall|va: u64| #[trigger] walk_kept(m, m, root, va) by {
    }
}


/// Writing a leaf entry keeps the map well-shaped.
pub proof fn lemma_write_leaf_shape(m: TableMap, sh: ShapeMap, root: u64, t: u64, k: int, v: u64)
    requires
        shape_ok(m, sh, root),
        m.contains_key(t),
        0 <= k < 512,
        1 <= sh[t].0 <= 3,
        is_leaf(sh[t].0, v),
    ensures
        shape_ok(m.insert(t, m[t].update(k, v)), sh, root),
{
    let m2 = m.insert(t, m[t].update(k, v));
    assert(forall|x: u64, j: int|
        (x != t || j != k) && m.contains_key(x) && 0 <= j < 512 ==> #[trigger] m2[x][j]
            == m[x][j]);
    assert(m2[t][k] == v);
    assert(m2.dom() == m.dom());
    assert forall|x: u64, j: int|
        #![trigger m2[x][j]]
        m2.contains_key(x) && 0 <= j < 512 && is_present(m2[x][j]) && !is_leaf(sh[x].0, m2[x][j])
            implies {
        &&& sh[x].0 > 1
        &&& !(sh[x].0 == 4 && is_huge(m2[x][j]))
        &&& m2.contains_key(entry_addr(m2[x][j]))
        &&& sh[entry_addr(m2[x][j])] == (sh[x].0 - 1, sh[x].1 * 512 + j)
    } by {
        if x == t && j == k {
        } else {
            assert(m2[x][j] == m[x][j]);
        }
    }
}

/// Addresses in the same block of a level's size use the same indices at
/// that level and above.
pub proof fn lemma_block_indices(a: u64, b: u64, level: int)
    requires
        1 <= level <= 3,
        low(a) / level_size(level) == low(b) / level_size(level),
    ensures
        p4(a) == p4(b),
        p3(a) == p3(b),
        level <= 2 ==> p2(a) == p2(b),
        level <= 1 ==> p1(a) == p1(b),
{
    lemma_indices(a);
    lemma_indices(b);
    lemma_low_blocks(a);
    lemma_low_blocks(b);
    if level == 3 {
        lemma_prefix_digits2(p4(a), p3(a), p4(b), p3(b));
    } else if level == 2 {
        lemma_prefix_digits(p4(a), p3(a), p2(a), p4(b), p3(b), p2(b));
    } else {
        let xa = (p4(a) * 512 + p3(a)) * 512 + p2(a);
        let xb = (p4(b) * 512 + p3(b)) * 512 + p2(b);
        assert(0 <= xa && 0 <= xb) by (nonlinear_arith)
            requires
                0 <= p4(a) < 512 && 0 <= p3(a) < 512 && 0 <= p2(a) < 512,
                0 <= p4(b) < 512 && 0 <= p3(b) < 512 && 0 <= p2(b) < 512,
                xa == (p4(a) * 512 + p3(a)) * 512 + p2(a),
                xb == (p4(b) * 512 + p3(b)) * 512 + p2(b),
        ;
        assert(xa == xb && p1(a) == p1(b)) by (nonlinear_arith)
            requires
                0 <= p1(a) < 512,
                0 <= p1(b) < 512,
                0 <= xa,
                0 <= xb,
                xa * 512 + p1(a) == xb * 512 + p1(b),
        ;
        lemma_prefix_digits(p4(a), p3(a), p2(a), p4(b), p3(b), p2(b));
    }
}

/// Walks of addresses that agree on the indices down to the level of `t`
/// read `t` at the same entry.
pub proof fn lemma_reads_same_indices(
    m: TableMap,
    sh: ShapeMap,
    root: u64,
    a: u64,
    b: u64,
    t: u64,
    k: int,
)
    requires
        shape_ok(m, sh, root),
        reads(m, root, a, t, k),
        1 <= sh[t].0 <= 3,
        p4(a) == p4(b),
        sh[t].0 <= 3 ==> p3(a) == p3(b),
        sh[t].0 <= 2 ==> p2(a) == p2(b),
        sh[t].0 <= 1 ==> p1(a) == p1(b),
    ensures
        reads(m, root, b, t, k),
{
    lemma_reads_shape(m, sh, root, a, t, k);
    assert(0 <= p4(a) < 512 && 0 <= p3(a) < 512 && 0 <= p2(a) < 512 && 0 <= p1(a) < 512)
        by (bit_vector);
    let e4 = m[root][p4(a)];
    if t == root {
    } else {
        let t3 = entry_addr(e4);
        assert(sh[t3].0 == 3);
        let e3 = m[t3][p3(a)];
        if t == t3 {
        } else {
            let t2 = entry_addr(e3);
            assert(sh[t2].0 == 2);
            let e2 = m[t2][p2(a)];
            if t == t2 {
            } else {
                let t1 = entry_addr(e2);
                assert(sh[t1].0 == 1);
            }
        }
    }
}

/// A walk that reads a present huge entry, or a present entry of a level-1
/// table, succeeds.
pub proof fn lemma_leaf_slot_translates(
    m: TableMap,
    sh: ShapeMap,
    root: u64,
    va: u64,
    t: u64,
    k: int,
)
    requires
        shape_ok(m, sh, root),
        reads(m, root, va, t, k),
        is_present(m[t][k]),
        is_huge(m[t][k]) || sh[t].0 == 1,
    ensures
        translate(m, root, va) is Some,
{
    lemma_reads_shape(m, sh, root, va, t, k);
    assert(0 <= p4(va) < 512 && 0 <= p3(va) < 512 && 0 <= p2(va) < 512 && 0 <= p1(va) < 512)
        by (bit_vector);
    let e4 = m[root][p4(va)];
    if t == root {
        assert(sh[root].0 == 4);
        assert(!is_leaf(4, e4));
    } else {
        let t3 = entry_addr(e4);
        assert(sh[t3].0 == 3);
        let e3 = m[t3][p3(va)];
        if t != t3 {
            let t2 = entry_addr(e3);
            assert(sh[t2].0 == 2);
            let e2 = m[t2][p2(va)];
            if t != t2 {
                let t1 = entry_addr(e2);
                assert(sh[t1].0 == 1);
            }
        }
    }
}


/// Placing a leaf in the slot that `addr` reads at `level` maps the whole
/// block of `addr` to that leaf and leaves every other walk unchanged.
pub proof fn lemma_place_leaf(
    m: TableMap,
    sh: ShapeMap,
    root: u64,
    addr: u64,
    t: u64,
    level: int,
    v: u64,
)
    requires
        shape_ok(m, sh, root),
        1 <= level <= 3,
        sh[t].0 == level,
        reads(m, root, addr, t, idx(addr, level)),
        is_present(v),
        is_huge(v) == (level > 1),
        above_ok(m, root, addr, level, is_write(v), is_exec(v)),
    ensures
        ({
            let m2 = m.insert(t, m[t].update(idx(addr, level), v));
            &&& shape_ok(m2, sh, root)
            &&& forall|va: u64|
                low(va) / level_size(level) == low(addr) / level_size(level) ==> #[trigger]
                translate(m2, root, va) == Some(
                    Leaf {
                        entry: v,
                        size: level_size(level) as u64,
                        write: is_write(v),
                        execute: is_exec(v),
                    },
                )
            &&& forall|va: u64|
                low(va) / level_size(level) != low(addr) / level_size(level) ==> #[trigger]
                translate(m2, root, va) == translate(m, root, va)
        }),
{
    let k = idx(addr, level);
    let m2 = m.insert(t, m[t].update(k, v));
    lemma_reads_shape(m, sh, root, addr, t, k);
    lemma_indices(addr);
    lemma_write_leaf_shape(m, sh, root, t, k, v);
    assert forall|va: u64|
        low(va) / level_size(level) == low(addr) / level_size(level) implies #[trigger] translate(
        m2,
        root,
        va,
    ) == Some(
        Leaf { entry: v, size: level_size(level) as u64, write: is_write(v), execute: is_exec(v) },
    ) by {
        lemma_block_indices(addr, va, level);
        lemma_reads_same_indices(m, sh, root, addr, va, t, k);
        lemma_write_leaf(m, sh, root, t, k, v, addr, va);
    }
    assert forall|va: u64|
        low(va) / level_size(level) != low(addr) / level_size(level) implies #[trigger] translate(
        m2,
        root,
        va,
    ) == translate(m, root, va) by {
        if reads(m, root, va, t, k) {
            lemma_reads_shape(m, sh, root, va, t, k);
            lemma_same_slot_same_block(addr, va, level);
        }
        lemma_write_frame(m, root, t, k, v, va);
    }
}


/// A walk in a well-shaped map gives the same result in any larger map that
/// agrees with it on its tables.
pub proof fn lemma_translate_sub(m: TableMap, m2: TableMap, sh: ShapeMap, root: u64, va: u64)
    requires
        shape_ok(m, sh, root),
        forall|t: u64| #[trigger] m.contains_key(t) ==> m2.contains_key(t) && m2[t] == m[t],
    ensures
        translate(m2, root, va) == translate(m, root, va),
{
    assert(0 <= p4(va) < 512 && 0 <= p3(va) < 512 && 0 <= p2(va) < 512 && 0 <= p1(va) < 512)
        by (bit_vector);
    assert(m2[root] == m[root]);
    let e4 = m[root][p4(va)];
    if is_present(e4) && !is_huge(e4) {
        assert(m.contains_key(entry_addr(e4)));
        assert(m2[entry_addr(e4)] == m[entry_addr(e4)]);
        let e3 = m[entry_addr(e4)][p3(va)];
        if is_present(e3) && !is_huge(e3) {
            assert(m.contains_key(entry_addr(e3)));
            assert(m2[entry_addr(e3)] == m[entry_addr(e3)]);
            let e2 = m[entry_addr(e3)][p2(va)];
            if is_present(e2) && !is_huge(e2) {
                assert(m.contains_key(entry_addr(e2)));
                assert(m2[entry_addr(e2)] == m[entry_addr(e2)]);
            }
        }
    }
}

} // verus!
