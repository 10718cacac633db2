use bmvm_host::memory::perm::{GuestOnly, Perm, ReadOnly, ReadWrite, WriteOnly};
use bmvm_host::memory::region::{ProtoRegion, RegionCollection, RegionError};
use bmvm_host::memory::{Align, Arm64, X86_64};

#[test]
fn permissions() {
    assert!(ReadOnly::readable() && !ReadOnly::writable());
    assert!(!WriteOnly::readable() && WriteOnly::writable());
    assert!(ReadWrite::readable() && ReadWrite::writable());
    assert!(!GuestOnly::readable() && !GuestOnly::writable());
}

#[test]
fn page_alignment() {
    assert_eq!(X86_64::alignment(), 0x1000);
    assert_eq!(Arm64::alignment(), 0x1000);
    assert!(X86_64::is_aligned(0x3000));
    assert!(!X86_64::is_aligned(0x3001));
    assert_eq!(X86_64::align_floor(0x3fff), 0x3000);
    assert_eq!(X86_64::align_ceil(0x3001), 0x4000);
    assert_eq!(Arm64::align_ceil(0x4000), 0x4000);
    assert_eq!(Arm64::align_floor(0x4000), 0x4000);
}

#[test]
fn write_then_read_back() {
    let mut r = ProtoRegion::<ReadWrite>::new(0x1000);
    assert_eq!(r.capacity(), 0x1000);
    assert_eq!(r.write_offset(10, &[1, 2, 3]), Ok(3));
    let mut buf = [0u8; 3];
    assert_eq!(r.read_offset(10, &mut buf), Ok(3));
    assert_eq!(buf, [1, 2, 3]);
    assert_eq!(&r.as_slice()[9..14], &[0, 1, 2, 3, 0]);
}

#[test]
fn writes_are_cut_at_the_end() {
    let mut r = ProtoRegion::<ReadWrite>::new(0x1000);
    assert_eq!(r.write_offset(0xffe, &[7, 8, 9, 10]), Ok(2));
    assert_eq!(&r.as_slice()[0xffe..], &[7, 8]);
    assert_eq!(r.write_offset(0x1000, &[1]), Ok(0));
    assert_eq!(r.write_offset(0x1001, &[1]), Err(RegionError::InvalidOffset { offset: 0x1001, max: 0x1000 }));
    assert_eq!(r.write_offset(5, &[]), Ok(0));
    // a read into a longer buffer fills what the region holds
    let mut buf = [0xAAu8; 4];
    assert_eq!(r.read_offset(0xffe, &mut buf), Ok(2));
    assert_eq!(buf, [7, 8, 0xAA, 0xAA]);
    assert_eq!(r.read_offset(0x1001, &mut buf), Err(RegionError::InvalidOffset { offset: 0x1001, max: 0x1000 }));
}

#[test]
fn addressed_access() {
    let mut r = ProtoRegion::<ReadWrite>::new(0x2000).set_guest_addr(0x10_0000);
    assert_eq!(r.addr(), 0x10_0000);
    assert_eq!(r.write_addr(0x10_1000, &[5, 6]), Ok(2));
    let mut buf = [0u8; 2];
    assert_eq!(r.read_addr(0x10_1000, &mut buf), Ok(2));
    assert_eq!(buf, [5, 6]);
    assert_eq!(r.read_offset(0x1000, &mut buf), Ok(2));
    assert_eq!(buf, [5, 6]);
    let before = RegionError::InvalidAddress { addr: 0xF_F000, start: 0x10_0000, size: 0x2000 };
    assert_eq!(r.write_addr(0xF_F000, &[1]), Err(before));
    let after = RegionError::InvalidAddress { addr: 0x10_2000, start: 0x10_0000, size: 0x2000 };
    assert_eq!(r.read_addr(0x10_2000, &mut buf), Err(after));
}

#[test]
fn collection_lookup() {
    let mut c = RegionCollection::new();
    let mut a = ProtoRegion::<ReadWrite>::new(0x1000);
    a.write_offset(0, &[1, 2, 3, 4]).unwrap();
    c.push(a.set_guest_addr(0x1000).into_entry());
    c.push(ProtoRegion::<WriteOnly>::new(0x1000).set_guest_addr(0x2000).into_entry());
    c.push(ProtoRegion::<ReadOnly>::new(0x1000).set_guest_addr(0x3000).into_entry());
    assert_eq!(c.len(), 3);
    assert_eq!(c.get(0x1fff).unwrap().addr(), 0x1000);
    assert_eq!(c.get(0x2000).unwrap().addr(), 0x2000);
    assert!(c.get(0x4000).is_none());
    assert!(c.get(0x2000).unwrap().writeable());
    assert!(!c.get(0x2000).unwrap().readable());
    assert!(c.get(0x2000).unwrap().as_ref().is_none());
    assert_eq!(c.get(0x1000).unwrap().as_ref().unwrap()[..4], [1, 2, 3, 4]);
    assert_eq!(c.get(0x3000).unwrap().capacity(), 0x1000);

    let mut other = RegionCollection::new();
    other.push(ProtoRegion::<GuestOnly>::new(0x1000).set_guest_addr(0x8000).into_entry());
    c.append(&mut other);
    assert_eq!(c.len(), 4);
    assert_eq!(other.len(), 0);
    assert_eq!(c.get(0x8800).unwrap().addr(), 0x8000);
    let ranges: Vec<(u64, u64)> = c.as_slice().iter().map(|(s, e, _)| (*s, *e)).collect();
    assert_eq!(ranges[3], (0x8000, 0x9000));
}

#[test]
fn dump_reads_across_regions() {
    let mut c = RegionCollection::new();
    let mut a = ProtoRegion::<ReadWrite>::new(0x1000);
    a.write_offset(0xffe, &[1, 2]).unwrap();
    let mut b = ProtoRegion::<ReadWrite>::new(0x1000);
    b.write_offset(0, &[3, 4]).unwrap();
    c.push(a.set_guest_addr(0x1000).into_entry());
    c.push(b.set_guest_addr(0x2000).into_entry());
    c.push(ProtoRegion::<WriteOnly>::new(0x1000).set_guest_addr(0x3000).into_entry());
    assert_eq!(c.dump(0x1ffe, 4).unwrap(), vec![1, 2, 3, 4]);
    assert_eq!(c.dump(0x1000, 0).unwrap(), Vec::<u8>::new());
    assert_eq!(c.dump(0x2ffe, 4), Err(RegionError::NotReadable(0x3000)));
    assert_eq!(c.dump(0x5000, 1), Err(RegionError::RegionNotFound(0x5000)));
}
