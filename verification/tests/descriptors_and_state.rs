use bmvm_host::descriptors::{
    adjust_cpuid, gdt, gdt_entry, idt, CpuIdEntry, GDT_ACCESS_CODE, GDT_ACCESS_DATA, GDT_BASE,
    GDT_FLAGS_CODE, GDT_FLAGS_DATA, GDT_LIMIT,
};
use bmvm_host::utils::Dirty;

#[test]
fn gdt_entry_layout() {
    let e = gdt_entry(0x1234_5678, 0xF_ABCD, 0x9B, 0b1010);
    assert_eq!(e, [0xCD, 0xAB, 0x78, 0x56, 0x34, 0x9B, 0xAF, 0x12]);
    assert_eq!(gdt_entry(0, 0, 0, 0), [0u8; 8]);
}

#[test]
fn long_mode_gdt() {
    let t = gdt();
    assert_eq!(t.len(), 24);
    assert_eq!(&t[0..8], &[0u8; 8]);
    assert_eq!(&t[8..16], &gdt_entry(GDT_BASE, GDT_LIMIT, GDT_ACCESS_CODE, GDT_FLAGS_CODE));
    assert_eq!(&t[16..24], &gdt_entry(GDT_BASE, GDT_LIMIT, GDT_ACCESS_DATA, GDT_FLAGS_DATA));
    assert_eq!(&t[8..16], &[0xFF, 0xFF, 0, 0, 0, 0x9B, 0xAF, 0]);
    assert!(idt().is_empty());
}

#[test]
fn cpuid_leaves_adjusted() {
    let leaf = |function: u32| CpuIdEntry { function, index: 0, flags: 0, eax: 0, ebx: 0, ecx: 0, edx: 0 };
    let mut entries = vec![leaf(1), leaf(0x8000_0001), leaf(0x8000_0008), leaf(7)];
    entries[2].ebx = 0x1234;
    adjust_cpuid(&mut entries);
    assert_eq!(entries[0].edx, (1 << 3) | (1 << 6));
    assert_eq!(entries[0].ecx, 1 << 20);
    assert_eq!(entries[1].edx, 1 << 29);
    assert_eq!(entries[2].ebx, (48 << 8) | 0x30);
    assert_eq!(entries[2].ecx, 1 << 26);
    assert_eq!(entries[3], leaf(7));
}

#[test]
fn dirty_tracks_changes() {
    let mut d = Dirty::new(5u32);
    assert!(!d.dirty());
    assert_eq!(*d.get(), 5);
    d.set(7);
    assert!(d.dirty());
    assert_eq!(*d.get(), 7);
    d.clear();
    assert!(!d.dirty());
    assert_eq!(*d.get(), 7);
    d.mark();
    assert!(d.dirty());
    *d.get_mut() = 9;
    assert_eq!(*d.get(), 9);
}

#[test]
fn dirty_mutate_keeps_earlier_changes() {
    let mut d = Dirty::new(1u32);
    d.mutate(|v| {
        *v += 1;
        false
    });
    assert_eq!(*d.get(), 2);
    assert!(!d.dirty());
    d.mutate(|v| {
        *v += 1;
        true
    });
    assert_eq!(*d.get(), 3);
    assert!(d.dirty());
    // a later closure that changes nothing keeps the earlier change pending
    d.mutate(|_| false);
    assert!(d.dirty());
    d.set(7);
    d.mutate(|_| false);
    assert!(d.dirty());
}

#[test]
fn dirty_sync_runs_only_when_dirty() {
    let mut d = Dirty::new(3u32);
    assert_eq!(d.if_dirty(|v| *v * 2), None);
    assert_eq!(d.sync(|v| *v * 2), None);
    d.set(4);
    assert_eq!(d.if_dirty(|v| *v * 2), Some(8));
    assert!(d.dirty());
    assert_eq!(d.sync(|v| *v * 2), Some(8));
    assert!(!d.dirty());
    assert_eq!(d.sync(|v| *v * 2), None);
}
