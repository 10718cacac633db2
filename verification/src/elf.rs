//! Loading a guest executable: checking an ELF image and turning its
//! loadable segments into guest memory regions and layout entries.
use vstd::prelude::*;
use crate::linker::{FnCall, UpcallPtr};
use crate::linker::validate::calls_view;
use crate::mem::{
    FLAG_CODE, FLAG_DATA, FLAG_PRESENT, FLAG_READ, FLAG_WRITE, Flags, LayoutTableEntry, PAGE_4KIB,
    align_ceil, align_floor, as_virt_addr, spec_as_virt_addr,
};
use crate::memory::perm::ReadWrite;
use crate::memory::region::{self, ProtoRegion, RegionCollection, moved, written};

verus! {

/// A program header of an ELF image, as far as loading reads it.
#[derive(Debug, Clone, Copy, PartialEq, Eq, Structural)]
pub struct ProgHeader {
    pub p_type: u32,
    pub p_offset: u64,
    pub p_vaddr: u64,
    pub p_filesz: u64,
    pub p_memsz: u64,
}

/// A section header of an ELF image, with its name from the section-name
/// table where it has one.
#[derive(Debug)]
pub struct SectHeader {
    pub name: Option<String>,
    pub sh_name: usize,
    pub sh_addr: u64,
    pub sh_offset: u64,
    pub sh_size: u64,
}

/// A section header as plain values.
pub struct SectView {
    pub name: Option<Seq<char>>,
    pub sh_name: usize,
    pub sh_addr: u64,
    pub sh_offset: u64,
    pub sh_size: u64,
}

impl View for SectHeader {
    type V = SectView;

    open spec fn view(&self) -> SectView {
        SectView {
            name: match self.name {
                Some(s) => Some(s@),
                None => None,
            },
            sh_name: self.sh_name,
            sh_addr: self.sh_addr,
            sh_offset: self.sh_offset,
            sh_size: self.sh_size,
        }
    }
}

/// What loading reads of a parsed ELF image.
#[derive(Debug)]
pub struct ElfImage {
    pub entry: u64,
    pub program_headers: Vec<ProgHeader>,
    pub section_headers: Vec<SectHeader>,
}

/// An ELF image as plain values.
pub struct ElfView {
    pub entry: u64,
    pub phs: Seq<ProgHeader>,
    pub shs: Seq<SectView>,
}

impl View for ElfImage {
    type V = ElfView;

    open spec fn view(&self) -> ElfView {
        ElfView {
            entry: self.entry,
            phs: self.program_headers@,
            shs: self.section_headers@.map_values(|s: SectHeader| s@),
        }
    }
}

/// The image goblin's ELF parser reads from `bytes`, or `None` where it
/// refuses them.
pub uninterp spec fn goblin_elf(bytes: Seq<u8>) -> Option<ElfView>;

/// The machine that goblin reads from the ELF header at the start of
/// `bytes`, or `None` where it refuses them.
pub uninterp spec fn goblin_machine(bytes: Seq<u8>) -> Option<u16>;

/// goblin's name for the ELF machine number `machine`.
pub uninterp spec fn goblin_machine_str(machine: u16) -> Seq<char>;

/// Parses `bytes` with `goblin::elf::Elf::parse` and reads out the entry
/// point, the program headers and the section headers, each section with
/// the name `Strtab::get_at` finds for it in the section-name table. The
/// contract claims that the outcome is a function of `bytes` alone.
#[verifier::external_body]
fn parse_elf(bytes: &[u8]) -> (r: Result<ElfImage, goblin::error::Error>)
    ensures
        match r {
            Ok(img) => goblin_elf(bytes@) == Some(img@),
            Err(_) => goblin_elf(bytes@) is None,
        },
{
    let elf = goblin::elf::Elf::parse(bytes)?;
    let phs = elf.program_headers.iter().map(|p| ProgHeader {
        p_type: p.p_type, p_offset: p.p_offset, p_vaddr: p.p_vaddr,
        p_filesz: p.p_filesz, p_memsz: p.p_memsz,
    });
    let shs = elf.section_headers.iter().map(|s| SectHeader {
        name: elf.shdr_strtab.get_at(s.sh_name).map(String::from), sh_name: s.sh_name,
        sh_addr: s.sh_addr, sh_offset: s.sh_offset, sh_size: s.sh_size,
    });
    Ok(ElfImage { entry: elf.entry, program_headers: phs.collect(), section_headers: shs.collect() })
}

/// Reads the ELF header at the start of `bytes` with
/// `goblin::elf::Elf::parse_header` and returns its machine number; the
/// contract claims that the outcome is a function of `bytes` alone.
#[verifier::external_body]
fn parse_machine(bytes: &[u8]) -> (r: Result<u16, goblin::error::Error>)
    ensures
        match r {
            Ok(m) => goblin_machine(bytes@) == Some(m),
            Err(_) => goblin_machine(bytes@) is None,
        },
{
    goblin::elf::Elf::parse_header(bytes).map(|h| h.e_machine)
}

/// goblin's name of an ELF machine number, from
/// `goblin::elf32::header::machine_to_str`.
#[verifier::external_body]
fn machine_to_str(machine: u16) -> (r: String)
    ensures
        r@ == goblin_machine_str(machine),
{
    String::from(goblin::elf32::header::machine_to_str(machine))
}

/// goblin's `EM_X86_64`, the machine number of x86-64, which its source
/// defines as 62.
#[verifier::external_body]
fn em_x86_64() -> (r: u16)
    ensures
        r == 62,
{
    goblin::elf::header::EM_X86_64
}

/// goblin's `PT_LOAD`, the type of a loadable segment, which its source
/// defines as 1.
#[verifier::external_body]
fn pt_load() -> (r: u32)
    ensures
        r == 1,
{
    goblin::elf::program_header::PT_LOAD
}

/// goblin's size of a 32-bit ELF header, which its source defines as 52.
#[verifier::external_body]
fn ehdr32_size() -> (r: usize)
    ensures
        r == 52,
{
    goblin::elf::header::header32::SIZEOF_EHDR
}

/// goblin's size of a 32-bit program header, which its source defines as 32.
#[verifier::external_body]
fn phdr32_size() -> (r: usize)
    ensures
        r == 32,
{
    goblin::elf::program_header::program_header32::SIZEOF_PHDR
}

/// The largest region a layout entry can describe: as many 4 KiB pages as
/// its page count holds.
pub const MAX_REGION_SIZE: u64 = 0xFFFF_FFFF_000;

/// The smallest file that can hold an ELF executable: a 32-bit ELF header
/// and one 32-bit program header.
pub open spec fn min_file_size() -> int {
    84
}

/// Errors of loading a guest executable.
#[derive(Debug)]
#[allow(inconsistent_fields)]
pub enum LoadError {
    NotAFile(String),
    FileTooSmall { path: String, min: usize, size: usize },
    UnsupportedPlatform(String),
    ElfUnnamedSection(usize),
    ElfSectionTooLarge { name: String, max: u64, size: u64 },
    ElfNoSectionForSegment(usize),
    ElfUnsupportedSection(String),
    InvalidEntryPoint(u64),
    ElfParse(goblin::error::Error),
    VmiParse { section: String },
    Alloc(region::RegionError),
}

/// What an error says, as plain values.
pub enum LoadErrorView {
    NotAFile(Seq<char>),
    FileTooSmall(Seq<char>, usize, usize),
    UnsupportedPlatform(Seq<char>),
    ElfUnnamedSection(usize),
    ElfSectionTooLarge(Seq<char>, u64, u64),
    ElfNoSectionForSegment(usize),
    ElfUnsupportedSection(Seq<char>),
    InvalidEntryPoint(u64),
    ElfParse,
    VmiParse(Seq<char>),
    Alloc(region::RegionError),
}

impl View for LoadError {
    type V = LoadErrorView;

    open spec fn view(&self) -> LoadErrorView {
        match self {
            LoadError::NotAFile(p) => LoadErrorView::NotAFile(p@),
            LoadError::FileTooSmall { path, min, size } => LoadErrorView::FileTooSmall(path@, *min, *size),
            LoadError::UnsupportedPlatform(m) => LoadErrorView::UnsupportedPlatform(m@),
            LoadError::ElfUnnamedSection(i) => LoadErrorView::ElfUnnamedSection(*i),
            LoadError::ElfSectionTooLarge { name, max, size } => LoadErrorView::ElfSectionTooLarge(
                name@,
                *max,
                *size,
            ),
            LoadError::ElfNoSectionForSegment(i) => LoadErrorView::ElfNoSectionForSegment(*i),
            LoadError::ElfUnsupportedSection(n) => LoadErrorView::ElfUnsupportedSection(n@),
            LoadError::InvalidEntryPoint(e) => LoadErrorView::InvalidEntryPoint(*e),
            LoadError::ElfParse(_) => LoadErrorView::ElfParse,
            LoadError::VmiParse { section } => LoadErrorView::VmiParse(section@),
            LoadError::Alloc(e) => LoadErrorView::Alloc(*e),
        }
    }
}

/// `p` is a prefix of `s`.
pub open spec fn has_prefix(s: Seq<char>, p: Seq<char>) -> bool {
    p.len() <= s.len() && s.subrange(0, p.len() as int) == p
}

/// `s` starts with `p`.
pub fn starts_with(s: &str, p: &str) -> (r: bool)
    ensures
        r == has_prefix(s@, p@),
{
    let n = p.unicode_len();
    let m = s.unicode_len();
    if n > m {
        return false;
    }
    let mut i: usize = 0;
    while i < n
        invariant
            n == p@.len(),
            m == s@.len(),
            n <= m,
            0 <= i <= n,
            forall|k: int| 0 <= k < i ==> s@[k] == p@[k],
        decreases n - i,
    {
        if s.get_char(i) != p.get_char(i) {
            assert(s@.subrange(0, n as int)[i as int] != p@[i as int]);
            return false;
        }
        i = i + 1;
    }
    assert(s@.subrange(0, n as int) =~= p@);
    true
}

/// The layout flags of a section named `name`: code for `.text`; read-only
/// data for `.rodata`, `.eh_frame` and `.got`; data that is written for
/// `.data` and `.bss`; none for any other name.
pub open spec fn section_flags(name: Seq<char>) -> Option<u32> {
    if has_prefix(name, ".text"@) {
        Some(FLAG_CODE)
    } else if has_prefix(name, ".rodata"@) || has_prefix(name, ".eh_frame"@) {
        Some(FLAG_DATA | FLAG_READ)
    } else if has_prefix(name, ".data"@) || has_prefix(name, ".bss"@) {
        Some(FLAG_DATA | FLAG_WRITE)
    } else if has_prefix(name, ".got"@) {
        Some(FLAG_DATA | FLAG_READ)
    } else {
        None
    }
}

/// The layout flags of a section, by its name.
pub fn section_name_to_flags(name: &str) -> (r: Result<Flags, LoadError>)
    ensures
        match section_flags(name@) {
            Some(bits) => r matches Ok(f) && f.bits == bits,
            None => r matches Err(e) && e@ == LoadErrorView::ElfUnsupportedSection(name@),
        },
{
    if starts_with(name, ".text") {
        Ok(Flags::code())
    } else if starts_with(name, ".rodata") || starts_with(name, ".eh_frame") {
        Ok(Flags::data_read())
    } else if starts_with(name, ".data") || starts_with(name, ".bss") {
        Ok(Flags::from_bits(FLAG_DATA | FLAG_WRITE))
    } else if starts_with(name, ".got") {
        Ok(Flags::data_read())
    } else {
        Err(LoadError::ElfUnsupportedSection(name.to_owned()))
    }
}

/// A file that is to hold a guest executable must be a regular file and
/// hold at least a 32-bit ELF header and one program header. `path` names
/// the file, `is_file` says whether it is a regular file, `len` is its size.
pub fn check_minimal_file_requirements(path: &str, is_file: bool, len: u64) -> (r: Result<
    (),
    LoadError,
>)
    ensures
        !is_file ==> (r matches Err(e) && e@ == LoadErrorView::NotAFile(path@)),
        is_file && len < min_file_size() ==> (r matches Err(e) && e@
            == LoadErrorView::FileTooSmall(path@, min_file_size() as usize, len as usize)),
        is_file && len >= min_file_size() ==> r is Ok,
{
    if !is_file {
        return Err(LoadError::NotAFile(path.to_owned()));
    }
    let min_size = ehdr32_size() + phdr32_size();
    if len < min_size as u64 {
        return Err(LoadError::FileTooSmall { path: path.to_owned(), min: min_size, size: len as usize });
    }
    Ok(())
}

/// The image must be one for x86-64: its header must parse, and name that
/// machine.
pub fn check_platform_supported(buf: &[u8]) -> (r: Result<(), LoadError>)
    ensures
        match goblin_machine(buf@) {
            None => r matches Err(e) && e@ == LoadErrorView::ElfParse,
            Some(m) => if m == 62 {
                r is Ok
            } else {
                r matches Err(e) && e@ == LoadErrorView::UnsupportedPlatform(goblin_machine_str(m))
            },
        },
{
    let machine = match parse_machine(buf) {
        Ok(m) => m,
        Err(err) => {
            return Err(LoadError::ElfParse(err));
        },
    };
    if machine != em_x86_64() {
        return Err(LoadError::UnsupportedPlatform(machine_to_str(machine)));
    }
    Ok(())
}

/// The bytes of a guest executable for this platform.
#[derive(Debug)]
pub struct Buffer {
    inner: Vec<u8>,
}

impl Buffer {
    pub closed spec fn view(&self) -> Seq<u8> {
        self.inner@
    }

    /// Take the bytes of a guest executable, once its header names x86-64.
    pub fn new(bytes: Vec<u8>) -> (r: Result<Buffer, LoadError>)
        ensures
            match goblin_machine(bytes@) {
                None => r matches Err(e) && e@ == LoadErrorView::ElfParse,
                Some(m) => if m == 62 {
                    r matches Ok(b) && b@ == bytes@
                } else {
                    r matches Err(e) && e@ == LoadErrorView::UnsupportedPlatform(goblin_machine_str(m))
                },
            },
    {
        check_platform_supported(bytes.as_slice())?;
        Ok(Buffer { inner: bytes })
    }

    /// The bytes.
    pub fn as_ref(&self) -> (r: &[u8])
        ensures
            r@ == self@,
    {
        self.inner.as_slice()
    }
}


/// `a` rounded down to a page boundary.
pub open spec fn page_floor(a: int) -> int {
    a - a % 4096
}

/// `a` rounded up to a page boundary.
pub open spec fn page_ceil(a: int) -> int {
    if a % 4096 == 0 {
        a
    } else {
        a - a % 4096 + 4096
    }
}

/// A section that is not empty and lies within the pages from `p_start` up
/// to `p_end`.
pub open spec fn section_in(sh: SectView, p_start: int, p_end: int) -> bool {
    sh.sh_size > 0 && sh.sh_addr >= p_start && sh.sh_addr + sh.sh_size <= p_end
}

/// The index of the first section from `from` on that lies within the pages
/// from `p_start` up to `p_end`, or -1.
pub open spec fn first_section(shs: Seq<SectView>, p_start: int, p_end: int, from: int) -> int
    decreases shs.len() - from,
{
    if from < 0 || from >= shs.len() {
        -1
    } else if section_in(shs[from], p_start, p_end) {
        from
    } else {
        first_section(shs, p_start, p_end, from + 1)
    }
}

/// First page of the segment with program header `ph`.
pub open spec fn seg_start(ph: ProgHeader) -> int {
    page_floor(ph.p_vaddr as int)
}

/// End of the last page of the segment with program header `ph`.
pub open spec fn seg_end(ph: ProgHeader) -> int {
    page_ceil(ph.p_vaddr + ph.p_memsz)
}

/// The layout entry of the loadable segment at `idx`: the pages it spans,
/// with the flags of the first section that lies within them, by that
/// section's name. It fails where no section lies within them, where that
/// section has no name or a name without flags, and where the pages are
/// more than a layout entry can describe.
pub open spec fn segment_entry(img: ElfView, idx: int) -> Result<LayoutTableEntry, LoadErrorView> {
    let ph = img.phs[idx];
    let p_start = seg_start(ph);
    let size = seg_end(ph) - p_start;
    let j = first_section(img.shs, p_start, seg_end(ph), 0);
    if j < 0 {
        Err(LoadErrorView::ElfNoSectionForSegment(idx as usize))
    } else {
        match img.shs[j].name {
            None => Err(LoadErrorView::ElfUnnamedSection(j as usize)),
            Some(name) => match section_flags(name) {
                None => Err(LoadErrorView::ElfUnsupportedSection(name)),
                Some(bits) => if size > MAX_REGION_SIZE {
                    Err(LoadErrorView::ElfSectionTooLarge(name, MAX_REGION_SIZE, size as u64))
                } else {
                    Ok(
                        LayoutTableEntry {
                            paddr: p_start as u64,
                            vaddr: spec_as_virt_addr(p_start as u64),
                            len: (size / 4096) as u32,
                            flags: Flags { bits: bits | FLAG_PRESENT },
                        },
                    )
                },
            },
        }
    }
}

proof fn lemma_first_section(shs: Seq<SectView>, p_start: int, p_end: int, from: int)
    ensures
        first_section(shs, p_start, p_end, from) >= 0 ==> {
            let j = first_section(shs, p_start, p_end, from);
            &&& from <= j < shs.len()
            &&& section_in(shs[j], p_start, p_end)
        },
    decreases shs.len() - from,
{
    if 0 <= from < shs.len() && !section_in(shs[from], p_start, p_end) {
        lemma_first_section(shs, p_start, p_end, from + 1);
    }
}

proof fn lemma_page_bounds(a: int)
    requires
        a >= 0,
    ensures
        page_floor(a) % 4096 == 0,
        page_ceil(a) % 4096 == 0,
        0 <= page_floor(a) <= a <= page_ceil(a),
        page_ceil(a) - page_floor(a) <= 4096 + (a - page_floor(a)),
{
    vstd::arithmetic::div_mod::lemma_fundamental_div_mod(a, 4096);
    vstd::arithmetic::div_mod::lemma_mod_multiples_basic(a / 4096, 4096);
    vstd::arithmetic::div_mod::lemma_mod_multiples_basic(a / 4096 + 1, 4096);
    vstd::arithmetic::mul::lemma_mul_is_distributive_add_other_way(4096, a / 4096, 1);
}

/// The index of the first section from `from` on whose name index is not 0
/// and whose name is `name`, or -1.
pub open spec fn named_section(shs: Seq<SectView>, name: Seq<char>, from: int) -> int
    decreases shs.len() - from,
{
    if from < 0 || from >= shs.len() {
        -1
    } else if shs[from].sh_name != 0 && shs[from].name == Some(name) {
        from
    } else {
        named_section(shs, name, from + 1)
    }
}

proof fn lemma_named_section(shs: Seq<SectView>, name: Seq<char>, from: int)
    ensures
        named_section(shs, name, from) >= 0 ==> from <= named_section(shs, name, from) < shs.len(),
        named_section(shs, name, from) >= 0 ==> shs[named_section(shs, name, from)].name == Some(name),
    decreases shs.len() - from,
{
    if 0 <= from < shs.len() && !(shs[from].sh_name != 0 && shs[from].name == Some(name)) {
        lemma_named_section(shs, name, from + 1);
    }
}

/// The section holds an upcall record: its name starts with `prefix` and
/// it spans at least the 16 bytes of a record inside a file of `len` bytes.
pub open spec fn is_upcall_record(sh: SectView, len: int, prefix: Seq<char>) -> bool {
    &&& sh.name matches Some(n) && has_prefix(n, prefix)
    &&& sh.sh_size >= 16
    &&& sh.sh_offset + 16 <= len
}

/// The upcall records of the sections `shs` of the file `bytes`, in section
/// order: each holds the signature of a function the guest exposes and the
/// function's guest address, as two little-endian 64-bit words.
pub open spec fn upcall_records(shs: Seq<SectView>, bytes: Seq<u8>, prefix: Seq<char>) -> Seq<
    UpcallPtr,
>
    decreases shs.len(),
{
    if shs.len() == 0 {
        seq![]
    } else {
        let sh = shs.last();
        let prev = upcall_records(shs.drop_last(), bytes, prefix);
        if is_upcall_record(sh, bytes.len() as int, prefix) {
            prev.push(
                UpcallPtr {
                    sig: crate::paging::le_u64(bytes, sh.sh_offset as int),
                    func: crate::paging::le_u64(bytes, sh.sh_offset + 8),
                },
            )
        } else {
            prev
        }
    }
}

/// A loaded segment as plain values: its layout entry, its first page and
/// its bytes.
pub struct SegmentView {
    pub entry: LayoutTableEntry,
    pub start: u64,
    pub data: Seq<u8>,
}

/// The bytes of the segment with program header `ph` in a file of `bytes`:
/// zero-filled pages with the segment's file bytes at its offset within
/// them.
pub open spec fn segment_data(ph: ProgHeader, bytes: Seq<u8>) -> Seq<u8> {
    let p_start = seg_start(ph);
    written(
        Seq::new((seg_end(ph) - p_start) as nat, |i: int| 0u8),
        ph.p_vaddr - p_start,
        bytes.subrange(ph.p_offset as int, ph.p_offset + ph.p_filesz),
    )
}

/// The loadable segments of `img` from program header `i` on, in order, up
/// to the first one that fails.
pub open spec fn segments_from(img: ElfView, bytes: Seq<u8>, i: int) -> Result<
    Seq<SegmentView>,
    LoadErrorView,
>
    decreases img.phs.len() - i,
{
    if i < 0 || i >= img.phs.len() {
        Ok(seq![])
    } else if img.phs[i].p_type != 1 {
        segments_from(img, bytes, i + 1)
    } else {
        match segment_entry(img, i) {
            Err(e) => Err(e),
            Ok(entry) => match segments_from(img, bytes, i + 1) {
                Err(e) => Err(e),
                Ok(rest) => Ok(
                    seq![
                        SegmentView {
                            entry,
                            start: seg_start(img.phs[i]) as u64,
                            data: segment_data(img.phs[i], bytes),
                        },
                    ] + rest,
                ),
            },
        }
    }
}

/// The image's loadable segments lie within a file of `len` bytes, their
/// pages within the address space and their size within `usize`.
pub open spec fn image_fits(img: ElfView, len: int) -> bool {
    &&& forall|i: int|
        0 <= i < img.phs.len() && (#[trigger] img.phs[i]).p_type == 1 ==> {
            &&& img.phs[i].p_vaddr + img.phs[i].p_memsz + 0xFFF <= u64::MAX
            &&& img.phs[i].p_offset + img.phs[i].p_filesz <= len
            &&& seg_end(img.phs[i]) - seg_start(img.phs[i]) <= usize::MAX
        }
}

/// An address of the 48-bit guest physical address space.
pub open spec fn valid_phys(addr: u64) -> bool {
    addr < 0x1_0000_0000_0000
}

/// The loadable part of a guest executable: its entry point, the memory of
/// its segments and their layout entries.
pub struct ElfLoad {
    pub entry: u64,
    pub mem_regions: RegionCollection,
    pub layout: Vec<LayoutTableEntry>,
}

/// `load` holds exactly the segments `segs`: a layout entry and a
/// read-write region each.
pub open spec fn holds_segments(load: ElfLoad, segs: Seq<SegmentView>) -> bool {
    &&& load.layout@ == segs.map_values(|s: SegmentView| s.entry)
    &&& load.mem_regions.wf()
    &&& load.mem_regions@.len() == segs.len()
    &&& forall|k: int|
        0 <= k < segs.len() ==> {
            &&& (#[trigger] load.mem_regions@[k]).2 is ReadWrite
            &&& load.mem_regions@[k].2.spec_addr() == segs[k].start
            &&& load.mem_regions@[k].2.contents() == segs[k].data
        }
}

/// Each segment that loading yields has a layout entry that describes its
/// memory exactly: the entry starts at the segment's first page, which is
/// page-aligned, spans as many pages as the segment's bytes, and is present.
pub proof fn law_segments_described(img: ElfView, bytes: Seq<u8>, i: int)
    requires
        image_fits(img, bytes.len() as int),
        segments_from(img, bytes, i) is Ok,
    ensures
        forall|k: int|
            0 <= k < segments_from(img, bytes, i)->Ok_0.len() ==> {
                let seg = #[trigger] segments_from(img, bytes, i)->Ok_0[k];
                &&& seg.entry.paddr == seg.start
                &&& seg.start % 4096 == 0
                &&& seg.entry.len * 4096 == seg.data.len()
                &&& seg.entry.flags.bits & FLAG_PRESENT != 0
            },
    decreases img.phs.len() - i,
{
    if 0 <= i < img.phs.len() {
        law_segments_described(img, bytes, i + 1);
        if img.phs[i].p_type == 1 {
            let ph = img.phs[i];
            let segs = segments_from(img, bytes, i)->Ok_0;
            let rest = segments_from(img, bytes, i + 1)->Ok_0;
            let entry = segment_entry(img, i)->Ok_0;
            lemma_page_bounds(ph.p_vaddr as int);
            lemma_page_bounds(ph.p_vaddr + ph.p_memsz);
            let size = seg_end(ph) - seg_start(ph);
            assert(size % 4096 == 0) by {
                vstd::arithmetic::div_mod::lemma_sub_mod_noop(seg_end(ph), seg_start(ph), 4096);
            }
            assert((size / 4096) * 4096 == size) by {
                vstd::arithmetic::div_mod::lemma_fundamental_div_mod(size, 4096);
            }
            assert(entry.len == size / 4096);
            let bits = entry.flags.bits;
            assert(bits & FLAG_PRESENT != 0) by {
                let b = section_flags(img.shs[first_section(img.shs, seg_start(ph), seg_end(ph), 0)].name->Some_0)->Some_0;
                assert(bits == b | 1u32);
                assert((b | 1u32) & 1u32 != 0) by (bit_vector);
            }
            assert forall|k: int| 0 <= k < segs.len() implies {
                let seg = #[trigger] segs[k];
                &&& seg.entry.paddr == seg.start
                &&& seg.start % 4096 == 0
                &&& seg.entry.len * 4096 == seg.data.len()
                &&& seg.entry.flags.bits & FLAG_PRESENT != 0
            } by {
                if k > 0 {
                    assert(segs[k] == rest[k - 1]);
                }
            }
        }
    }
}

/// What loading the segments of image `img` from the file `bytes` gives:
/// an error where the entry point is no guest physical address, otherwise
/// the segments of `segments_from` or its first error.
pub open spec fn loaded(img: ElfView, bytes: Seq<u8>, r: Result<ElfLoad, LoadError>) -> bool {
    if !valid_phys(img.entry) {
        r matches Err(e) && e@ == LoadErrorView::InvalidEntryPoint(img.entry)
    } else {
        match segments_from(img, bytes, 0) {
            Err(ev) => r matches Err(e) && e@ == ev,
            Ok(segs) => r matches Ok(l) && l.entry == img.entry && holds_segments(l, segs),
        }
    }
}

/// `v` is sorted by signature.
pub open spec fn sorted_by_sig(v: Seq<FnCall>) -> bool {
    forall|i: int, j: int| 0 <= i <= j < v.len() ==> v[i].sig <= v[j].sig
}

/// Sort function calls by signature, keeping calls of equal signature in
/// their order.
pub fn sort_calls(calls: Vec<FnCall>) -> (r: Vec<FnCall>)
    ensures
        sorted_by_sig(r@),
        calls_view(r@).to_multiset() == calls_view(calls@).to_multiset(),
{
    broadcast use vstd::seq_lib::group_to_multiset_ensures;

    let ghost orig = calls@;
    let mut rest = calls;
    let mut out: Vec<FnCall> = Vec::new();
    let ghost mut taken: int = 0;
    while rest.len() > 0
        invariant
            0 <= taken <= orig.len(),
            rest@ == orig.skip(taken),
            sorted_by_sig(out@),
            calls_view(out@).to_multiset() == calls_view(orig.take(taken)).to_multiset(),
        decreases rest@.len(),
    {
        let ghost before = rest@;
        let x = rest.remove(0);
        assert(x == orig[taken]);
        let mut pos: usize = 0;
        while pos < out.len() && out[pos].sig <= x.sig
            invariant
                0 <= pos <= out@.len(),
                forall|k: int| 0 <= k < pos ==> out@[k].sig <= x.sig,
            decreases out@.len() - pos,
        {
            pos = pos + 1;
        }
        let ghost prev = out@;
        out.insert(pos, x);
        proof {
            assert(calls_view(out@) =~= calls_view(prev).insert(pos as int, x@));
            vstd::seq_lib::to_multiset_insert(calls_view(prev), pos as int, x@);
            vstd::seq_lib::to_multiset_build(calls_view(orig.take(taken)), x@);
            assert(calls_view(orig.take(taken + 1)) =~= calls_view(orig.take(taken)).push(x@));
            assert(rest@ =~= orig.skip(taken + 1));
            taken = taken + 1;
        }
    }
    assert(orig.take(taken) =~= orig);
    out
}

/// A parsed guest executable, ready to be loaded.
pub struct ExecBundle {
    /// Guest physical address of the entry point.
    pub entry: u64,
    /// The memory of the loadable segments.
    pub mem_regions: RegionCollection,
    /// The memory layout of the loaded segments.
    pub layout: Vec<LayoutTableEntry>,
    /// All function calls exposed by the guest, which are callable by the
    /// host, sorted by signature.
    pub expose: Vec<FnCall>,
    /// All function calls expected to be provided to the guest by the host,
    /// sorted by signature.
    pub host: Vec<FnCall>,
    /// The addresses of the functions the guest exposes.
    pub upcalls: Vec<UpcallPtr>,
}

impl ExecBundle {
    /// The layout entry of the loadable segment at `ph_idx`, whose pages
    /// span `allocated_size` bytes (see `segment_entry`).
    fn build_layout_table_entry(ph_idx: usize, ph: &ProgHeader, allocated_size: u64, elf: &ElfImage)
        -> (r: Result<LayoutTableEntry, LoadError>)
        requires
            0 <= ph_idx < elf@.phs.len(),
            *ph == elf@.phs[ph_idx as int],
            ph.p_vaddr + ph.p_memsz + 0xFFF <= u64::MAX,
            allocated_size == seg_end(*ph) - seg_start(*ph),
        ensures
            match segment_entry(elf@, ph_idx as int) {
                Ok(e) => r == Ok::<LayoutTableEntry, LoadError>(e),
                Err(ev) => r matches Err(e) && e@ == ev,
            },
    {
        let p_start = align_floor(ph.p_vaddr);
        let p_end = align_ceil(ph.p_vaddr + ph.p_memsz);
        let ghost shs = elf@.shs;
        let mut i: usize = 0;
        while i < elf.section_headers.len()
            invariant
                0 <= i <= shs.len(),
                shs == elf@.shs,
                0 <= ph_idx < elf@.phs.len(),
                *ph == elf@.phs[ph_idx as int],
                allocated_size == seg_end(*ph) - seg_start(*ph),
                p_start == seg_start(*ph),
                p_end == seg_end(*ph),
                first_section(shs, p_start as int, p_end as int, 0) == first_section(
                    shs,
                    p_start as int,
                    p_end as int,
                    i as int,
                ),
            decreases shs.len() - i,
        {
            let sh = &elf.section_headers[i];
            assert(sh@ == shs[i as int]);
            if sh.sh_size != 0 {
                let s_start = sh.sh_addr;
                // the section ends within the pages: s_start + size <= p_end
                if s_start >= p_start && s_start <= p_end && sh.sh_size <= p_end - s_start {
                    assert(section_in(shs[i as int], p_start as int, p_end as int));
                    assert(first_section(shs, p_start as int, p_end as int, i as int) == i as int);
                    let name = match &sh.name {
                        Some(n) => n.as_str(),
                        None => {
                            assert(shs[i as int].name is None);
                            assert(segment_entry(elf@, ph_idx as int) == Err::<
                                LayoutTableEntry,
                                LoadErrorView,
                            >(LoadErrorView::ElfUnnamedSection(i)));
                            return Err(LoadError::ElfUnnamedSection(i));
                        },
                    };
                    let flags = match section_name_to_flags(name) {
                        Ok(f) => f,
                        Err(e) => {
                            return Err(e);
                        },
                    };
                    if allocated_size > MAX_REGION_SIZE {
                        return Err(
                            LoadError::ElfSectionTooLarge {
                                name: name.to_owned(),
                                max: MAX_REGION_SIZE,
                                size: allocated_size,
                            },
                        );
                    }
                    let present = Flags::from_bits(FLAG_PRESENT);
                    return Ok(
                        LayoutTableEntry::new(
                            p_start,
                            as_virt_addr(p_start),
                            (allocated_size / PAGE_4KIB) as u32,
                            flags.union(present),
                        ),
                    );
                }
            }
            i = i + 1;
        }
        Err(LoadError::ElfNoSectionForSegment(ph_idx))
    }

    /// Load the segments of a parsed image `image` of the file `bytes`:
    /// check that the entry point is a guest physical address, then turn
    /// each loadable segment into a layout entry and a region of zero-filled
    /// pages holding the segment's file bytes (see `segments_from`).
    pub fn from_image(image: &ElfImage, bytes: &[u8]) -> (r: Result<ElfLoad, LoadError>)
        requires
            image_fits(image@, bytes@.len() as int),
        ensures
            loaded(image@, bytes@, r),
    {
        let entry = image.entry;
        if entry >= 0x1_0000_0000_0000u64 {
            return Err(LoadError::InvalidEntryPoint(entry));
        }
        let load_type = pt_load();
        let ghost img = image@;
        let mut layout: Vec<LayoutTableEntry> = Vec::new();
        let mut mem_regions = RegionCollection::new();
        let ghost mut done: Seq<SegmentView> = seq![];
        assert(layout@ =~= done.map_values(|s: SegmentView| s.entry));
        let mut idx: usize = 0;
        while idx < image.program_headers.len()
            invariant
                0 <= idx <= img.phs.len(),
                img == image@,
                entry == image.entry,
                valid_phys(entry),
                load_type == 1,
                image_fits(img, bytes@.len() as int),
                segments_from(img, bytes@, 0) == match segments_from(img, bytes@, idx as int) {
                    Ok(rest) => Ok(done + rest),
                    Err(e) => Err::<Seq<SegmentView>, LoadErrorView>(e),
                },
                holds_segments(ElfLoad { entry, mem_regions, layout }, done),
            decreases img.phs.len() - idx,
        {
            let ph = image.program_headers[idx];
            if ph.p_type != load_type {
                idx = idx + 1;
                continue;
            }
            assert(img.phs[idx as int] == ph);
            let p_start = align_floor(ph.p_vaddr);
            let p_end = align_ceil(ph.p_vaddr + ph.p_memsz);
            let to_alloc = p_end - p_start;
            let entry_l = match Self::build_layout_table_entry(idx, &ph, to_alloc, image) {
                Ok(e) => e,
                Err(e) => {
                    return Err(e);
                },
            };
            let blen = bytes.len();
            proof {
                lemma_first_section(img.shs, p_start as int, p_end as int, 0);
                lemma_page_bounds(ph.p_vaddr as int);
                lemma_page_bounds(ph.p_vaddr + ph.p_memsz);
                assert(p_start == seg_start(ph));
                assert(p_end == seg_end(ph));
                assert(segment_entry(img, idx as int) is Ok);
                assert(first_section(img.shs, p_start as int, p_end as int, 0) >= 0);
                assert(p_end > p_start);
                assert(ph.p_offset + ph.p_filesz <= bytes@.len());
            }
            let ghost seg = SegmentView {
                entry: entry_l,
                start: p_start,
                data: segment_data(ph, bytes@),
            };
            layout.push(entry_l);
            let mut proto = ProtoRegion::<ReadWrite>::new(to_alloc as usize);
            let to_cpy = vstd::slice::slice_subrange(
                bytes,
                ph.p_offset as usize,
                (ph.p_offset + ph.p_filesz) as usize,
            );
            let region_offset = ph.p_vaddr - p_start;
            match proto.write_offset(region_offset as usize, to_cpy) {
                Ok(_) => {},
                Err(e) => {
                    return Err(LoadError::Alloc(e));
                },
            }
            let mem = proto.set_guest_addr(p_start);
            mem_regions.push(mem.into_entry());
            proof {
                let ghost prev = done;
                assert(segments_from(img, bytes@, idx as int) == match segments_from(
                    img,
                    bytes@,
                    idx + 1,
                ) {
                    Ok(rest) => Ok(seq![seg] + rest),
                    Err(e) => Err::<Seq<SegmentView>, LoadErrorView>(e),
                });
                match segments_from(img, bytes@, idx + 1) {
                    Ok(rest) => {
                        assert(prev + (seq![seg] + rest) =~= prev.push(seg) + rest);
                    },
                    Err(_) => {},
                }
                done = done.push(seg);
                assert(layout@ =~= done.map_values(|s: SegmentView| s.entry));
            }
            idx = idx + 1;
        }
        Ok(ElfLoad { entry, mem_regions, layout })
    }

    /// The index of the first section named `name`; sections without a name
    /// index do not count.
    pub fn find_section_header(elf: &ElfImage, name: &str) -> (r: Option<usize>)
        ensures
            r == if named_section(elf@.shs, name@, 0) >= 0 {
                Some(named_section(elf@.shs, name@, 0) as usize)
            } else {
                None::<usize>
            },
    {
        let ghost shs = elf@.shs;
        let mut idx: usize = 0;
        while idx < elf.section_headers.len()
            invariant
                0 <= idx <= shs.len(),
                shs == elf@.shs,
                named_section(shs, name@, 0) == named_section(shs, name@, idx as int),
            decreases shs.len() - idx,
        {
            let section = &elf.section_headers[idx];
            assert(section@ == shs[idx as int]);
            if section.sh_name != 0 {
                match &section.name {
                    Some(sh_name) => {
                        let same_len = sh_name.as_str().unicode_len() == name.unicode_len();
                        if same_len && starts_with(sh_name.as_str(), name) {
                            proof {
                                assert(sh_name@ =~= name@);
                            }
                            return Some(idx);
                        }
                        assert(sh_name@ != name@) by {
                            if sh_name@ == name@ {
                                assert(sh_name@.subrange(0, name@.len() as int) =~= sh_name@);
                            }
                        }
                    },
                    None => {},
                }
            }
            idx = idx + 1;
        }
        None
    }

    /// The image holds debug information for its function calls: it has a
    /// section named `debug_section`.
    pub fn is_vmi_debug(elf: &ElfImage, debug_section: &str) -> (r: bool)
        ensures
            r == (named_section(elf@.shs, debug_section@, 0) >= 0),
    {
        Self::find_section_header(elf, debug_section).is_some()
    }

    /// The bytes of the first section named `name` in the file `bytes`, if
    /// there is such a section.
    pub fn vmi_section<'a>(elf: &ElfImage, bytes: &'a [u8], name: &str) -> (r: Option<&'a [u8]>)
        requires
            named_section(elf@.shs, name@, 0) >= 0 ==> {
                let sh = elf@.shs[named_section(elf@.shs, name@, 0)];
                sh.sh_offset + sh.sh_size <= bytes@.len()
            },
        ensures
            named_section(elf@.shs, name@, 0) < 0 ==> r is None,
            named_section(elf@.shs, name@, 0) >= 0 ==> {
                let sh = elf@.shs[named_section(elf@.shs, name@, 0)];
                r matches Some(c) && c@ == bytes@.subrange(
                    sh.sh_offset as int,
                    sh.sh_offset + sh.sh_size,
                )
            },
    {
        let n = elf.section_headers.len();
        proof {
            lemma_named_section(elf@.shs, name@, 0);
        }
        match Self::find_section_header(elf, name) {
            Some(idx) => {
                let section = &elf.section_headers[idx];
                assert(section@ == elf@.shs[idx as int]);
                let blen = bytes.len();
                assert(section.sh_offset + section.sh_size <= blen);
                let start = section.sh_offset as usize;
                let end = (section.sh_offset + section.sh_size) as usize;
                Some(vstd::slice::slice_subrange(bytes, start, end))
            },
            None => None,
        }
    }

    /// The addresses of the functions the guest exposes, read from the
    /// records in the sections whose names start with `prefix` (see
    /// `upcall_records`).
    pub fn upcall_ptrs(elf: &ElfImage, bytes: &[u8], prefix: &str) -> (r: Vec<UpcallPtr>)
        ensures
            r@ == upcall_records(elf@.shs, bytes@, prefix@),
    {
        let ghost shs = elf@.shs;
        let mut out: Vec<UpcallPtr> = Vec::new();
        let mut i: usize = 0;
        while i < elf.section_headers.len()
            invariant
                0 <= i <= shs.len(),
                shs == elf@.shs,
                out@ == upcall_records(shs.take(i as int), bytes@, prefix@),
            decreases shs.len() - i,
        {
            let sh = &elf.section_headers[i];
            assert(sh@ == shs[i as int]);
            assert(shs.take(i + 1).drop_last() =~= shs.take(i as int));
            let named = match &sh.name {
                Some(n) => starts_with(n.as_str(), prefix),
                None => false,
            };
            let len = bytes.len();
            if named && sh.sh_size >= 16 && len >= 16 && sh.sh_offset <= (len - 16) as u64 {
                let off = sh.sh_offset as usize;
                let sig = crate::paging::load_u64(bytes, off);
                let func = crate::paging::load_u64(bytes, off + 8);
                out.push(UpcallPtr { sig, func });
            }
            i = i + 1;
        }
        assert(shs.take(shs.len() as int) =~= shs);
        out
    }

    /// Check a parsed image against the file it came from (see
    /// `image_fits`).
    pub fn image_fits(elf: &ElfImage, len: usize) -> (r: bool)
        ensures
            r == image_fits(elf@, len as int),
    {
        let ghost img = elf@;
        let load_type = pt_load();
        let mut i: usize = 0;
        while i < elf.program_headers.len()
            invariant
                0 <= i <= img.phs.len(),
                img == elf@,
                load_type == 1,
                forall|k: int|
                    0 <= k < i && (#[trigger] img.phs[k]).p_type == 1 ==> {
                        &&& img.phs[k].p_vaddr + img.phs[k].p_memsz + 0xFFF <= u64::MAX
                        &&& img.phs[k].p_offset + img.phs[k].p_filesz <= len
                        &&& seg_end(img.phs[k]) - seg_start(img.phs[k]) <= usize::MAX
                    },
            decreases img.phs.len() - i,
        {
            let ph = elf.program_headers[i];
            assert(ph == img.phs[i as int]);
            if ph.p_type == load_type {
                if ph.p_vaddr > u64::MAX - 0xFFF || ph.p_memsz > u64::MAX - 0xFFF - ph.p_vaddr {
                    return false;
                }
                if ph.p_offset > len as u64 || ph.p_filesz > len as u64 - ph.p_offset {
                    return false;
                }
                let span = align_ceil(ph.p_vaddr + ph.p_memsz) - align_floor(ph.p_vaddr);
                if span > usize::MAX as u64 {
                    return false;
                }
            }
            i = i + 1;
        }
        true
    }

    /// Parse the file `buf` and load its segments (see `from_image`); `None`
    /// where the parsed image does not fit the file (see `image_fits`).
    pub fn from_buffer(buf: &Buffer) -> (r: Option<Result<(ElfImage, ElfLoad), LoadError>>)
        ensures
            match goblin_elf(buf@) {
                None => r matches Some(Err(e)) && e@ == LoadErrorView::ElfParse,
                Some(v) => if !image_fits(v, buf@.len() as int) {
                    r is None
                } else {
                    r matches Some(res) && match res {
                        Ok(p) => p.0@ == v && loaded(v, buf@, Ok::<ElfLoad, LoadError>(p.1)),
                        Err(e) => loaded(v, buf@, Err::<ElfLoad, LoadError>(e)),
                    }
                },
            },
    {
        let bytes = buf.as_ref();
        let image = match parse_elf(bytes) {
            Ok(img) => img,
            Err(e) => {
                return Some(Err(LoadError::ElfParse(e)));
            },
        };
        if !Self::image_fits(&image, bytes.len()) {
            return None;
        }
        match Self::from_image(&image, bytes) {
            Ok(load) => Some(Ok((image, load))),
            Err(e) => Some(Err(e)),
        }
    }

    /// The bundle of the loaded segments `load`, the functions the guest
    /// exposes (`expose`) and expects (`host`), each sorted by signature,
    /// and the addresses of the exposed functions.
    pub fn new(load: ElfLoad, expose: Vec<FnCall>, host: Vec<FnCall>, upcalls: Vec<UpcallPtr>) -> (r:
        ExecBundle)
        ensures
            r.entry == load.entry,
            r.mem_regions == load.mem_regions,
            r.layout == load.layout,
            sorted_by_sig(r.expose@),
            calls_view(r.expose@).to_multiset() == calls_view(expose@).to_multiset(),
            sorted_by_sig(r.host@),
            calls_view(r.host@).to_multiset() == calls_view(host@).to_multiset(),
            r.upcalls == upcalls,
    {
        ExecBundle {
            entry: load.entry,
            mem_regions: load.mem_regions,
            layout: load.layout,
            expose: sort_calls(expose),
            host: sort_calls(host),
            upcalls,
        }
    }
}

} // verus!
