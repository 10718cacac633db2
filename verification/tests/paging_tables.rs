use bmvm_host::paging::{write_idx, PagingArena};
use bmvm_host::mem::{Flags, LayoutTableEntry, FLAG_PRESENT};
use bmvm_host::paging::{get_at, hex_string, setup, write_at, PageEntry, PagingError, TableRegion};
use bmvm_host::paging::{p1_index, p4_index};

fn le(bytes: &[u8], off: usize) -> u64 {
    let mut b = [0u8; 8];
    b.copy_from_slice(&bytes[off..off + 8]);
    u64::from_le_bytes(b)
}

/// The entry at `idx` of the table at guest address `table`.
fn entry(regions: &[TableRegion], table: u64, idx: usize) -> u64 {
    for r in regions {
        if r.addr <= table && table + 0x1000 <= r.addr + r.data.len() as u64 {
            return le(&r.data, (table - r.addr) as usize + idx * 8);
        }
    }
    panic!("no table at {:#x}", table);
}

/// Walk the tables rooted at `pml4` for `va`: the leaf entry and the size it maps.
fn walk(regions: &[TableRegion], pml4: u64, va: u64) -> Option<(u64, u64)> {
    let mut table = pml4;
    let shifts = [39u64, 30, 21, 12];
    for (level, shift) in shifts.iter().enumerate() {
        let e = entry(regions, table, ((va >> shift) & 0x1FF) as usize);
        if e & 1 == 0 {
            return None;
        }
        if level == 3 || (level > 0 && e & 0x80 != 0) {
            return Some((e, 1u64 << shift));
        }
        table = e & 0x000F_FFFF_FFFF_F000;
    }
    None
}

#[test]
fn entry_reads_back_after_write() {
    let mut data = vec![0u8; 0x2000];
    let e = PageEntry::new(0x5000, false, Flags::data_write());
    assert_eq!(write_at(&mut data, 0x1000, 7, e), Ok(()));
    let read = get_at(&data[0x1000..0x2000], 7).unwrap();
    assert_eq!(read.0, e.0);
    // the other entries keep their value
    assert_eq!(get_at(&data[0x1000..0x2000], 6).unwrap().0, 0);
    assert_eq!(get_at(&data[0x1000..0x2000], 8).unwrap().0, 0);
    assert_eq!(le(&data, 0x1000 + 7 * 8), e.0);
}

#[test]
fn entry_index_out_of_bounds() {
    let mut data = vec![0u8; 0x1000];
    let e = PageEntry::new(0x5000, false, Flags::code());
    assert_eq!(write_at(&mut data, 0, 512, e), Err(PagingError::IndexOutOfBounds(512)));
    assert!(data.iter().all(|b| *b == 0));
    assert_eq!(get_at(&data, 512).unwrap_err(), PagingError::IndexOutOfBounds(512));
}

#[test]
fn page_entry_bits() {
    let mut e = PageEntry::new(0x1234_5000, true, Flags::code());
    assert!(e.present());
    assert!(e.huge());
    assert!(e.exec());
    assert!(!e.write());
    assert_eq!(e.addr(), 0x1234_5000);
    e.set_write(true);
    assert!(e.write());
    e.set_exec(false);
    assert!(!e.exec());
    assert_eq!(e.0 & 0x8000_0000_0000_0000, 0x8000_0000_0000_0000);
    e.set_addr(0x9000);
    assert_eq!(e.addr(), 0x9000);
    assert!(e.present() && e.huge() && e.write());
    assert_eq!(e.to_ne_bytes(), e.0.to_le_bytes());
    assert_eq!(PageEntry::from(0x23).0, 0x23);
    // data pages are not executable
    let d = PageEntry::new(0x2000, false, Flags::data_read());
    assert!(!d.exec());
    assert!(!d.write());
}

#[test]
fn table_indices() {
    let va: u64 = 0xFFFF_8000_0020_3000;
    assert_eq!(p4_index(va), 256);
    assert_eq!(p1_index(va), 3);
}

fn present(flags: Flags) -> Flags {
    flags.union(Flags::from_bits(FLAG_PRESENT))
}

#[test]
fn setup_maps_each_layout_entry_to_itself() {
    let entries = vec![
        LayoutTableEntry::new(0x1000, 0x1000, 2, present(Flags::code())),
        LayoutTableEntry::new(0x40_0000, 0x40_0000, 0x200, present(Flags::data_write())),
    ];
    let pml4 = 0x8000_0000_2000;
    let regions = setup(&entries, pml4, 16, 4).unwrap();
    // code: present, executable, not writable, mapped to itself
    let (e, size) = walk(&regions, pml4, 0x1000).unwrap();
    assert_eq!(size, 0x1000);
    assert_eq!(e & 0x000F_FFFF_FFFF_F000, 0x1000);
    assert_eq!(e & 2, 0);
    assert_eq!(e & 0x8000_0000_0000_0000, 0);
    let (e, _) = walk(&regions, pml4, 0x2fff).unwrap();
    assert_eq!(e & 0x000F_FFFF_FFFF_F000, 0x2000);
    // the 2 MiB data region: writable, not executable
    let (e, size) = walk(&regions, pml4, 0x40_0123).unwrap();
    assert_eq!(e & 0x000F_FFFF_FFFF_F000, 0x40_0000 & !(size - 1));
    assert_ne!(e & 2, 0);
    assert_ne!(e & 0x8000_0000_0000_0000, 0);
    // nothing else is mapped
    assert!(walk(&regions, pml4, 0x3000).is_none());
    assert!(walk(&regions, pml4, 0x80_0000).is_none());
    // the regions start at the root and hold whole tables
    assert_eq!(regions[0].addr, pml4);
    for r in &regions {
        assert_eq!(r.data.len() % 0x1000, 0);
    }
}

#[test]
fn setup_maps_upper_half_through_canonical_addresses() {
    let sys = 0x8000_0000_0000u64;
    let entries = vec![LayoutTableEntry::new(sys, 0xFFFF_8000_0000_0000, 2, present(Flags::data_write()))];
    let pml4 = 0x8000_0000_2000;
    let regions = setup(&entries, pml4, 16, 4).unwrap();
    // the walk goes through the canonical address; the frame is that address
    // cut to the entry's address bits
    let (e, size) = walk(&regions, pml4, 0xFFFF_8000_0000_1000).unwrap();
    assert_eq!(size, 0x1000);
    assert_eq!(e & 0x000F_FFFF_FFFF_F000, 0xFFFF_8000_0000_1000 & 0x000F_FFFF_FFFF_F000);
    assert!(walk(&regions, pml4, 0xFFFF_8000_0000_2000).is_none());
}

#[test]
fn setup_refuses_overlapping_huge_mappings() {
    // a 1 GiB region and a 4 KiB region inside it
    let entries = vec![
        LayoutTableEntry::new(0x4000_0000, 0x4000_0000, 0x4_0000, present(Flags::data_read())),
        LayoutTableEntry::new(0x4000_1000, 0x4000_1000, 1, present(Flags::data_read())),
    ];
    match setup(&entries, 0x8000_0000_2000, 16, 4) {
        Err(PagingError::Overlapping(_)) => {}
        other => panic!("expected an overlap, got {:?}", other.map(|r| r.len())),
    }
}

#[test]
fn entries_as_text() {
    let e = PageEntry(0x8000_0000_0020_1083);
    assert_eq!(e.to_string(), "Present: true, Huge: true, Write: true, Exec: false, Addr: 201000");
    assert_eq!(PageEntry(0).to_string(), "Present: false, Huge: false, Write: false, Exec: true, Addr: 0");
    assert_eq!(hex_string(0), "0");
    assert_eq!(hex_string(255), "ff");
    assert_eq!(hex_string(0x8000_0000_0000), "800000000000");
}

#[test]
fn present_entries_keep_their_child() {
    let pml4 = 0x10_0000u64;
    let data = Flags::data_write().union(Flags::from_bits(FLAG_PRESENT));
    let code = Flags::code().union(Flags::from_bits(FLAG_PRESENT));
    let mut arena = PagingArena::new(pml4, 2, 1);
    // a missing entry gets a fresh child at the next address
    assert_eq!(write_idx(&mut arena, 0, pml4, 0, data), Ok(0x10_1000));
    // a present entry keeps its child and allocates nothing
    assert_eq!(write_idx(&mut arena, 0, pml4, 0, data), Ok(0x10_1000));
    assert_eq!(write_idx(&mut arena, 0, pml4, 0, code), Ok(0x10_1000));
    let regions = arena.into_regions();
    assert_eq!(regions.len(), 1);
    assert_eq!(regions[0].data.len(), 0x2000);
    // the root's entry points at the child, writable, and now executable
    let e = le(&regions[0].data, 0);
    assert_eq!(e & 0x000F_FFFF_FFFF_F000, 0x10_1000);
    assert_eq!(e & 0x3, 0x3);
    assert_eq!(e >> 63, 0);
}

#[test]
fn children_live_in_region_pages() {
    let pml4 = 0x20_0000u64;
    let data = Flags::data_write().union(Flags::from_bits(FLAG_PRESENT));
    let mut arena = PagingArena::new(pml4, 1, 2);
    // the first region is full: the child opens a region of two tables
    assert_eq!(arena.child(pml4, 5, data), Ok(0x20_1000));
    let regions = arena.into_regions();
    assert_eq!(regions.len(), 2);
    assert_eq!(regions[1].addr, 0x20_1000);
    assert_eq!(regions[1].data.len(), 0x2000);
    assert_eq!(le(&regions[0].data, 5 * 8) & 0x000F_FFFF_FFFF_F000, 0x20_1000);
    assert!(regions[1].data[..0x1000].iter().all(|b| *b == 0));
}
