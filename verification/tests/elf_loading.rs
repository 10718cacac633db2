use bmvm_host::elf::{
    check_minimal_file_requirements, check_platform_supported, section_name_to_flags, sort_calls,
    starts_with, Buffer, ExecBundle, LoadError,
};
use bmvm_host::linker::{FnCall, UpcallPtr};
use bmvm_host::mem::{FLAG_CODE, FLAG_DATA, FLAG_PRESENT, FLAG_READ, FLAG_WRITE};
use bmvm_host::memory::region::{RegionCollection, RegionEntry};

struct Section {
    name: &'static str,
    kind: u32,
    addr: u64,
    offset: u64,
    size: u64,
}

/// A little-endian ELF64 executable for `machine` with one loadable segment
/// (`vaddr`, `memsz`, the bytes `code` at file offset 0x100) and the given
/// sections after a null section; a section-name table is added at the end.
fn elf(machine: u16, entry: u64, vaddr: u64, memsz: u64, code: &[u8], sections: &[Section]) -> Vec<u8> {
    let mut names = vec![0u8];
    let mut name_offs = Vec::new();
    for s in sections {
        name_offs.push(names.len() as u32);
        names.extend_from_slice(s.name.as_bytes());
        names.push(0);
    }
    let shstr_name = names.len() as u32;
    names.extend_from_slice(b".shstrtab\0");
    let shnum = (sections.len() + 2) as u16;
    let mut out = vec![0u8; 0x300 + 64 * shnum as usize];
    // ELF header
    out[0..4].copy_from_slice(&[0x7f, b'E', b'L', b'F']);
    out[4] = 2;
    out[5] = 1;
    out[6] = 1;
    out[16..18].copy_from_slice(&2u16.to_le_bytes());
    out[18..20].copy_from_slice(&machine.to_le_bytes());
    out[20..24].copy_from_slice(&1u32.to_le_bytes());
    out[24..32].copy_from_slice(&entry.to_le_bytes());
    out[32..40].copy_from_slice(&64u64.to_le_bytes());
    let shoff = 0x300u64;
    out[40..48].copy_from_slice(&shoff.to_le_bytes());
    out[52..54].copy_from_slice(&64u16.to_le_bytes());
    out[54..56].copy_from_slice(&56u16.to_le_bytes());
    out[56..58].copy_from_slice(&1u16.to_le_bytes());
    out[58..60].copy_from_slice(&64u16.to_le_bytes());
    out[60..62].copy_from_slice(&shnum.to_le_bytes());
    out[62..64].copy_from_slice(&(shnum - 1).to_le_bytes());
    // program header
    let ph = 64;
    out[ph..ph + 4].copy_from_slice(&1u32.to_le_bytes());
    out[ph + 4..ph + 8].copy_from_slice(&5u32.to_le_bytes());
    out[ph + 8..ph + 16].copy_from_slice(&0x100u64.to_le_bytes());
    out[ph + 16..ph + 24].copy_from_slice(&vaddr.to_le_bytes());
    out[ph + 24..ph + 32].copy_from_slice(&vaddr.to_le_bytes());
    out[ph + 32..ph + 40].copy_from_slice(&(code.len() as u64).to_le_bytes());
    out[ph + 40..ph + 48].copy_from_slice(&memsz.to_le_bytes());
    out[ph + 48..ph + 56].copy_from_slice(&0x1000u64.to_le_bytes());
    // code
    out[0x100..0x100 + code.len()].copy_from_slice(code);
    // section-name table
    out[0x200..0x200 + names.len()].copy_from_slice(&names);
    // section headers
    let mut put = |i: usize, name: u32, kind: u32, addr: u64, offset: u64, size: u64| {
        let b = shoff as usize + i * 64;
        out[b..b + 4].copy_from_slice(&name.to_le_bytes());
        out[b + 4..b + 8].copy_from_slice(&kind.to_le_bytes());
        out[b + 16..b + 24].copy_from_slice(&addr.to_le_bytes());
        out[b + 24..b + 32].copy_from_slice(&offset.to_le_bytes());
        out[b + 32..b + 40].copy_from_slice(&size.to_le_bytes());
        out[b + 48..b + 56].copy_from_slice(&1u64.to_le_bytes());
    };
    for (i, s) in sections.iter().enumerate() {
        put(i + 1, name_offs[i], s.kind, s.addr, s.offset, s.size);
    }
    put(sections.len() + 1, shstr_name, 3, 0, 0x200, names.len() as u64);
    out
}

fn text(vaddr: u64, size: u64) -> Section {
    Section { name: ".text", kind: 1, addr: vaddr, offset: 0x100, size }
}

fn region_bytes(regions: &RegionCollection, i: usize) -> (u64, Vec<u8>) {
    match &regions.as_slice()[i].2 {
        RegionEntry::ReadWrite(r) => (r.addr(), r.as_slice().to_vec()),
        _ => panic!("not a read-write region"),
    }
}

#[test]
fn section_flags_by_name() {
    assert_eq!(section_name_to_flags(".text").unwrap().bits, FLAG_CODE);
    assert_eq!(section_name_to_flags(".text.startup").unwrap().bits, FLAG_CODE);
    assert_eq!(section_name_to_flags(".rodata.str").unwrap().bits, FLAG_DATA | FLAG_READ);
    assert_eq!(section_name_to_flags(".eh_frame").unwrap().bits, FLAG_DATA | FLAG_READ);
    assert_eq!(section_name_to_flags(".got.plt").unwrap().bits, FLAG_DATA | FLAG_READ);
    assert_eq!(section_name_to_flags(".data").unwrap().bits, FLAG_DATA | FLAG_WRITE);
    assert_eq!(section_name_to_flags(".bss").unwrap().bits, FLAG_DATA | FLAG_WRITE);
    match section_name_to_flags(".comment") {
        Err(LoadError::ElfUnsupportedSection(n)) => assert_eq!(n, ".comment"),
        other => panic!("unexpected {:?}", other),
    }
    assert!(section_name_to_flags(".tex").is_err());
}

#[test]
fn prefixes() {
    assert!(starts_with(".text.x", ".text"));
    assert!(starts_with("abc", ""));
    assert!(!starts_with(".tex", ".text"));
    assert!(!starts_with("xtext", ".text"));
}

#[test]
fn file_requirements() {
    assert!(check_minimal_file_requirements("a.elf", true, 84).is_ok());
    match check_minimal_file_requirements("a.elf", true, 83) {
        Err(LoadError::FileTooSmall { path, min, size }) => {
            assert_eq!(path, "a.elf");
            assert_eq!(min, 84);
            assert_eq!(size, 83);
        }
        other => panic!("unexpected {:?}", other),
    }
    match check_minimal_file_requirements("dir", false, 4096) {
        Err(LoadError::NotAFile(p)) => assert_eq!(p, "dir"),
        other => panic!("unexpected {:?}", other),
    }
}

#[test]
fn platform_check() {
    let good = elf(62, 0x1000, 0x1000, 0x10, &[0x90; 16], &[text(0x1000, 0x10)]);
    assert!(check_platform_supported(&good).is_ok());
    assert!(Buffer::new(good.clone()).is_ok());
    assert_eq!(Buffer::new(good.clone()).unwrap().as_ref(), &good[..]);
    let i386 = elf(3, 0x1000, 0x1000, 0x10, &[0x90; 16], &[text(0x1000, 0x10)]);
    match check_platform_supported(&i386) {
        Err(LoadError::UnsupportedPlatform(m)) => assert_eq!(m, "386"),
        other => panic!("unexpected {:?}", other),
    }
    let arm = elf(183, 0x1000, 0x1000, 0x10, &[0x90; 16], &[text(0x1000, 0x10)]);
    assert!(matches!(Buffer::new(arm), Err(LoadError::UnsupportedPlatform(m)) if m == "AARCH64"));
    assert!(matches!(check_platform_supported(b"not an elf"), Err(LoadError::ElfParse(_))));
    assert!(matches!(Buffer::new(vec![0u8; 8]), Err(LoadError::ElfParse(_))));
}

#[test]
fn loads_a_segment_into_zeroed_pages() {
    let code = [0xAAu8, 0xBB, 0xCC];
    let bytes = elf(62, 0x1010, 0x1010, 0x1800, &code, &[text(0x1010, 3)]);
    let buf = Buffer::new(bytes).unwrap();
    let (image, load) = ExecBundle::from_buffer(&buf).unwrap().unwrap();
    assert_eq!(image.entry, 0x1010);
    assert_eq!(image.program_headers.len(), 1);
    assert_eq!(load.entry, 0x1010);
    assert_eq!(load.layout.len(), 1);
    let e = load.layout[0];
    assert_eq!(e.paddr, 0x1000);
    assert_eq!(e.len, 2);
    assert_eq!(e.flags.bits, FLAG_CODE | FLAG_PRESENT);
    assert_eq!(load.mem_regions.len(), 1);
    let (addr, data) = region_bytes(&load.mem_regions, 0);
    assert_eq!(addr, 0x1000);
    assert_eq!(data.len(), 0x2000);
    assert_eq!(&data[0x10..0x13], &code);
    assert!(data[..0x10].iter().all(|b| *b == 0));
    assert!(data[0x13..].iter().all(|b| *b == 0));
}

#[test]
fn segment_without_section() {
    let bytes = elf(62, 0x1000, 0x1000, 0x10, &[0x90; 16], &[text(0x9000, 0x10)]);
    let buf = Buffer::new(bytes).unwrap();
    match ExecBundle::from_buffer(&buf).unwrap() {
        Err(LoadError::ElfNoSectionForSegment(0)) => {}
        other => panic!("unexpected {:?}", other.map(|p| p.1.layout.len())),
    }
}

#[test]
fn segment_with_unsupported_section() {
    let s = Section { name: ".foo", kind: 1, addr: 0x1000, offset: 0x100, size: 0x10 };
    let buf = Buffer::new(elf(62, 0x1000, 0x1000, 0x10, &[0x90; 16], &[s])).unwrap();
    match ExecBundle::from_buffer(&buf).unwrap() {
        Err(LoadError::ElfUnsupportedSection(n)) => assert_eq!(n, ".foo"),
        other => panic!("unexpected {:?}", other.map(|p| p.1.layout.len())),
    }
}

#[test]
fn entry_point_outside_guest_memory() {
    let buf = Buffer::new(elf(62, 0x1_0000_0000_0000, 0x1000, 0x10, &[0x90; 16], &[text(0x1000, 0x10)])).unwrap();
    match ExecBundle::from_buffer(&buf).unwrap() {
        Err(LoadError::InvalidEntryPoint(e)) => assert_eq!(e, 0x1_0000_0000_0000),
        other => panic!("unexpected {:?}", other.map(|p| p.1.layout.len())),
    }
}

#[test]
fn image_must_fit_its_file() {
    let mut bytes = elf(62, 0x1000, 0x1000, 0x10, &[0x90; 16], &[text(0x1000, 0x10)]);
    // claim more file bytes than there are
    bytes[64 + 32..64 + 40].copy_from_slice(&0x10_0000u64.to_le_bytes());
    let buf = Buffer::new(bytes).unwrap();
    assert!(ExecBundle::from_buffer(&buf).is_none());
}

#[test]
fn sections_past_the_address_space_do_not_stop_loading() {
    let far = Section { name: ".comment", kind: 1, addr: 0xFFFF_FFFF_FFFF_F000, offset: 0x100, size: 0x2000 };
    let bytes = elf(62, 0x1000, 0x1000, 0x10, &[0x90; 16], &[far, text(0x1000, 0x10)]);
    let buf = Buffer::new(bytes).unwrap();
    let (_, load) = ExecBundle::from_buffer(&buf).unwrap().unwrap();
    assert_eq!(load.layout.len(), 1);
    assert_eq!(load.layout[0].paddr, 0x1000);
}

#[test]
fn vmi_sections() {
    let vmi = Section { name: ".vmi.host", kind: 1, addr: 0, offset: 0x100, size: 4 };
    let dbg = Section { name: ".vmi.debug", kind: 1, addr: 0, offset: 0x100, size: 0 };
    let bytes = elf(62, 0x1000, 0x1000, 0x10, &[1, 2, 3, 4], &[text(0x1000, 4), vmi, dbg]);
    let buf = Buffer::new(bytes).unwrap();
    let (image, _) = ExecBundle::from_buffer(&buf).unwrap().unwrap();
    assert_eq!(ExecBundle::find_section_header(&image, ".text"), Some(1));
    assert_eq!(ExecBundle::find_section_header(&image, ".vmi.host"), Some(2));
    assert_eq!(ExecBundle::find_section_header(&image, ".vmi"), None);
    assert!(ExecBundle::is_vmi_debug(&image, ".vmi.debug"));
    assert!(!ExecBundle::is_vmi_debug(&image, ".vmi.expose"));
    assert_eq!(ExecBundle::vmi_section(&image, buf.as_ref(), ".vmi.host"), Some(&[1u8, 2, 3, 4][..]));
    assert_eq!(ExecBundle::vmi_section(&image, buf.as_ref(), ".vmi.expose"), None);
}

#[test]
fn upcall_records_from_sections() {
    let mut code = Vec::new();
    code.extend_from_slice(&0x1122u64.to_le_bytes());
    code.extend_from_slice(&0x8000_0000_2000u64.to_le_bytes());
    code.extend_from_slice(&0x3344u64.to_le_bytes());
    code.extend_from_slice(&0x8000_0000_3000u64.to_le_bytes());
    let first = Section { name: ".vmi.calls.1122", kind: 1, addr: 0, offset: 0x100, size: 16 };
    let second = Section { name: ".vmi.calls.3344", kind: 1, addr: 0, offset: 0x110, size: 16 };
    let short = Section { name: ".vmi.calls.short", kind: 1, addr: 0, offset: 0x100, size: 8 };
    let other = Section { name: ".vmi.host", kind: 1, addr: 0, offset: 0x100, size: 16 };
    let bytes = elf(62, 0x1000, 0x1000, 0x20, &code, &[text(0x1000, 0x20), first, short, other, second]);
    let buf = Buffer::new(bytes).unwrap();
    let (image, _) = ExecBundle::from_buffer(&buf).unwrap().unwrap();
    let ptrs = ExecBundle::upcall_ptrs(&image, buf.as_ref(), ".vmi.calls");
    assert_eq!(
        ptrs,
        vec![
            UpcallPtr { sig: 0x1122, func: 0x8000_0000_2000 },
            UpcallPtr { sig: 0x3344, func: 0x8000_0000_3000 },
        ]
    );
    assert!(ExecBundle::upcall_ptrs(&image, buf.as_ref(), ".none").is_empty());
}

fn call(sig: u64, name: &str) -> FnCall {
    FnCall { sig, name: name.to_string(), debug_param_types: vec![], debug_return_type: None }
}

#[test]
fn calls_sorted_by_signature() {
    let sorted = sort_calls(vec![call(3, "c"), call(1, "a"), call(3, "d"), call(2, "b")]);
    let order: Vec<(u64, &str)> = sorted.iter().map(|c| (c.sig, c.name.as_str())).collect();
    assert_eq!(order, vec![(1, "a"), (2, "b"), (3, "c"), (3, "d")]);
}

#[test]
fn bundle_from_loaded_parts() {
    let code = [0x90u8; 4];
    let buf = Buffer::new(elf(62, 0x1000, 0x1000, 0x10, &code, &[text(0x1000, 4)])).unwrap();
    let (_, load) = ExecBundle::from_buffer(&buf).unwrap().unwrap();
    let b = ExecBundle::new(
        load,
        vec![call(9, "x"), call(4, "y")],
        vec![call(2, "h")],
        vec![UpcallPtr { sig: 9, func: 0x2000 }],
    );
    assert_eq!(b.entry, 0x1000);
    assert_eq!(b.expose[0].sig, 4);
    assert_eq!(b.expose[1].sig, 9);
    assert_eq!(b.host.len(), 1);
    assert_eq!(b.upcalls[0].func, 0x2000);
    assert_eq!(b.layout.len(), 1);
}
