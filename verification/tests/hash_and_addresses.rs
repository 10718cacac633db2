use bmvm_host::hash::djb2_u32;
use bmvm_host::mem::{
    align_ceil, align_floor, as_virt_addr, layout_table_bytes, phys_of_virt, Flags, LayoutTableEntry,
    LAYOUT_ENTRY_SIZE, LAYOUT_TABLE_ENTRIES,
};
use bmvm_host::vm::layout::{
    align_by_ref, guest_paging_addr, guest_stack_addr, guest_system_addr, initial_stack_pointer,
    shared_layout, stack_layout, GUEST_SYSTEM_ADDR,
};

#[test]
fn test_djb2() {
    assert_eq!(djb2_u32(""), 5381);
    assert_eq!(djb2_u32("hello"), 261238937);
    assert_eq!(djb2_u32("hello!"), 30950362);
}

#[test]
fn test_addr() {
    assert_eq!(guest_system_addr(), 1 << (48 - 1));
    assert_eq!(guest_stack_addr(), align_floor(guest_system_addr() - 1));
    assert_eq!(as_virt_addr(guest_system_addr()), 0xFFFF800000000000);
}

#[test]
fn djb2_of_single_byte() {
    // 5381 * 33 + 'a'
    assert_eq!(djb2_u32("a"), 177670);
}

#[test]
fn djb2_wraps_modulo_two_to_the_32() {
    let long = "the quick brown fox jumps over the lazy dog";
    let mut h: u64 = 5381;
    for b in long.bytes() {
        h = (h * 33 + b as u64) % (1u64 << 32);
    }
    assert_eq!(djb2_u32(long) as u64, h);
}

#[test]
fn paging_and_stack_addresses() {
    assert_eq!(GUEST_SYSTEM_ADDR, 0x8000_0000_0000);
    assert_eq!(guest_paging_addr(), 0x8000_0000_2000);
    assert_eq!(guest_stack_addr(), 0x7FFF_FFFF_F000);
    assert_eq!(initial_stack_pointer(), 0x7FFF_FFFF_EFF0);
}

#[test]
fn page_rounding() {
    assert_eq!(align_floor(0x1234), 0x1000);
    assert_eq!(align_floor(0x2000), 0x2000);
    assert_eq!(align_ceil(0x1234), 0x2000);
    assert_eq!(align_ceil(0x2000), 0x2000);
    assert_eq!(align_ceil(0), 0);
    assert_eq!(align_floor(align_floor(0xFFFF)), align_floor(0xFFFF));
}

#[test]
fn canonical_addresses_round_trip() {
    assert_eq!(as_virt_addr(0x1000), 0x1000);
    assert_eq!(as_virt_addr(0x8000_0000_1000), 0xFFFF_8000_0000_1000);
    assert_eq!(phys_of_virt(as_virt_addr(0x8000_0000_1000)), 0x8000_0000_1000);
    assert_eq!(phys_of_virt(as_virt_addr(0x7FFF_FFFF_F000)), 0x7FFF_FFFF_F000);
}

#[test]
fn align_by_reference() {
    // a reference aligned to 1 GiB rounds to 1 GiB
    assert_eq!(align_by_ref(0x1_7FFF_FFFF, 0x4000_0000), 0x1_4000_0000);
    // one aligned to 2 MiB rounds to 2 MiB
    assert_eq!(align_by_ref(0x1_7FFF_FFFF, 0x20_0000), 0x1_7FE0_0000);
    // otherwise to 4 KiB
    assert_eq!(align_by_ref(0x1_7FFF_FFFF, 0x1000), 0x1_7FFF_F000);
}

#[test]
fn stack_and_shared_layout_entries() {
    let e = stack_layout(0x80_0000, 0x7FFF_FFFF_F000);
    assert_eq!(e.paddr, 0x7FFF_FF7F_F000);
    assert_eq!(e.vaddr, 0x7FFF_FF7F_F000);
    assert_eq!(e.len, 0x800);
    assert!(e.flags.bits & bmvm_host::mem::FLAG_STACK != 0);
    assert!(e.flags.bits & bmvm_host::mem::FLAG_PRESENT != 0);

    let s = shared_layout(0x7FFF_0000_0000, 0x7F12_3456_7000, 16, true);
    assert_eq!(s.paddr, 0x7FFF_0000_0000);
    assert_eq!(s.vaddr, 0x7F12_3456_7000);
    assert_eq!(s.len, 16);
    assert!(s.flags.bits & bmvm_host::mem::FLAG_SHARED_OWNED != 0);
    let h = shared_layout(0x7FFF_0000_0000, 0xFFFF_8000_0000_0000, 16, false);
    assert_eq!(h.vaddr, 0xFFFF_8000_0000_0000);
    assert!(h.flags.bits & bmvm_host::mem::FLAG_SHARED_FOREIGN != 0);
}

#[test]
fn layout_entry_builders() {
    let f = Flags::code().union(Flags::from_bits(bmvm_host::mem::FLAG_PRESENT));
    let e = LayoutTableEntry::empty().set_paddr(0x3000).set_vaddr(0x3000).set_len(2).set_flags(f);
    assert_eq!(e.addr(), 0x3000);
    assert_eq!(e.size(), 0x2000);
    assert!(e.flags().is_code());
    assert!(!e.flags().is_write());
    assert!(Flags::data_write().is_write());
    assert_eq!(Flags::empty().bits, 0);
    assert_eq!(LayoutTableEntry::new(1, 2, 3, f), LayoutTableEntry { paddr: 1, vaddr: 2, len: 3, flags: f });
}

#[test]
fn layout_table_encoding() {
    let f = Flags::from_bits(0x13);
    let entries = [LayoutTableEntry::new(0x1000, 0xFFFF_8000_0000_1000, 3, f), LayoutTableEntry::new(0x2000, 0x2000, 1, f)];
    let bytes = layout_table_bytes(&entries);
    assert_eq!(bytes.len(), 4096);
    assert_eq!(&bytes[0..8], &0x1000u64.to_le_bytes());
    assert_eq!(&bytes[8..16], &0xFFFF_8000_0000_1000u64.to_le_bytes());
    assert_eq!(&bytes[16..24], &(3u64 | (0x13u64 << 32)).to_le_bytes());
    assert_eq!(&bytes[24..32], &0x2000u64.to_le_bytes());
    assert!(bytes[48..].iter().all(|b| *b == 0));
    assert_eq!(LAYOUT_TABLE_ENTRIES * LAYOUT_ENTRY_SIZE <= 4096, true);
}

#[test]
fn djb2_continues_over_a_suffix() {
    let fold = |h: u32, t: &str| t.bytes().fold(h, |h, b| h.wrapping_mul(33).wrapping_add(b as u32));
    assert_eq!(djb2_u32(""), 5381);
    assert_eq!(djb2_u32("hello!"), fold(djb2_u32("hello"), "!"));
    assert_eq!(djb2_u32("hello, world"), fold(djb2_u32("hel"), "lo, world"));
}
