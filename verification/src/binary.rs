//! The program image: its bytes, its executable code regions, its symbols,
//! and the two in-place patch passes that undo kernel control-flow-integrity
//! rewriting (return-thunk sites and retpoline sites).

use vstd::prelude::*;
use crate::error::Error;

verus! {

/// Word width of a code region.
#[derive(Clone, Copy, Debug, PartialEq, Eq, Structural)]
pub enum Bitness {
    /// 32-bit decoding.
    Bits32,
    /// 64-bit decoding.
    Bits64,
}

/// An executable image: the complete file bytes and the path they came
/// from. Mutable only through the patch passes between loading and
/// scanning.
pub struct Binary {
    path: String,
    bytes: Vec<u8>,
}

/// One executable code region of an image. The absolute virtual address of
/// byte `i` of `bytes` is `program_base + section_vaddr + i`.
pub struct Section {
    file_offset: usize,
    section_vaddr: usize,
    program_base: usize,
    bitness: Bitness,
    bytes: Vec<u8>,
}

impl Binary {
    /// Wrap the bytes of an image; reading the file is the caller's business.
    pub fn new(path: String, bytes: Vec<u8>) -> (r: Binary)
        ensures
            r.spec_path() == path@,
            r@ == bytes@,
    {
        Binary { path, bytes }
    }

    /// The image bytes.
    pub closed spec fn view(&self) -> Seq<u8> {
        self.bytes@
    }

    /// The path the image was read from.
    pub closed spec fn spec_path(&self) -> Seq<char> {
        self.path@
    }

    /// See [`Binary::spec_path`].
    pub fn path(&self) -> (r: &String)
        ensures
            r@ == self.spec_path(),
    {
        &self.path
    }

    /// The image bytes, read-only.
    pub fn bytes_ref(&self) -> (r: &Vec<u8>)
        ensures
            r@ == self@,
    {
        &self.bytes
    }
}

impl Section {
    /// Addresses and sizes stay inside the machine's integer ranges: the
    /// absolute address of every byte of the region fits in 64 bits, and
    /// the region's base address fits in a `usize`.
    pub open spec fn wf(&self) -> bool {
        &&& self.spec_program_base() + self.spec_section_vaddr() + self@.len() <= u64::MAX
        &&& self.spec_program_base() + self.spec_section_vaddr() <= usize::MAX
    }

    /// Absolute virtual address of the first byte.
    pub open spec fn spec_base(&self) -> u64
        recommends
            self.wf(),
    {
        (self.spec_program_base() + self.spec_section_vaddr()) as u64
    }

    /// The region decodes in 64-bit mode.
    pub open spec fn bit64(&self) -> bool {
        self.spec_bitness() is Bits64
    }

    /// The region's bytes.
    pub closed spec fn view(&self) -> Seq<u8> {
        self.bytes@
    }

    /// Where the region's bytes start in the file.
    pub closed spec fn spec_file_offset(&self) -> usize {
        self.file_offset
    }

    /// Runtime address of the region's first byte, before the program base
    /// is added.
    pub closed spec fn spec_section_vaddr(&self) -> usize {
        self.section_vaddr
    }

    /// Image base added to the section address (PE only; zero elsewhere).
    pub closed spec fn spec_program_base(&self) -> usize {
        self.program_base
    }

    /// Build a region; the scanner needs [`Section::wf`], which holds
    /// whenever the given addresses pass the checks of the loader.
    pub(crate) fn make(
        file_offset: usize,
        section_vaddr: usize,
        program_base: usize,
        bitness: Bitness,
        bytes: Vec<u8>,
    ) -> (r: Section)
        ensures
            r.spec_file_offset() == file_offset,
            r.spec_section_vaddr() == section_vaddr,
            r.spec_program_base() == program_base,
            r.spec_bitness() == bitness,
            r@ == bytes@,
    {
        Section { file_offset, section_vaddr, program_base, bitness, bytes }
    }

    /// See [`Section::spec_file_offset`].
    pub fn file_offset(&self) -> (r: usize)
        ensures
            r == self.spec_file_offset(),
    {
        self.file_offset
    }

    /// See [`Section::spec_section_vaddr`].
    pub fn section_vaddr(&self) -> (r: usize)
        ensures
            r == self.spec_section_vaddr(),
    {
        self.section_vaddr
    }

    /// See [`Section::spec_program_base`].
    pub fn program_base(&self) -> (r: usize)
        ensures
            r == self.spec_program_base(),
    {
        self.program_base
    }

    /// The region's word width.
    pub closed spec fn spec_bitness(&self) -> Bitness {
        self.bitness
    }

    /// See [`Section::spec_bitness`].
    #[verifier::when_used_as_spec(spec_bitness)]
    pub fn bitness(&self) -> (r: Bitness)
        ensures
            r == self.spec_bitness(),
    {
        self.bitness
    }

    /// See [`Section::view`].
    pub fn bytes(&self) -> (r: &Vec<u8>)
        ensures
            r@ == self@,
    {
        &self.bytes
    }

    /// Absolute virtual address of the first byte; see [`Section::spec_base`].
    pub fn base(&self) -> (r: u64)
        requires
            self.wf(),
        ensures
            r == self.spec_base(),
    {
        (self.program_base as u64) + (self.section_vaddr as u64)
    }

    /// Whether the region decodes in 64-bit mode; see [`Section::bit64`].
    pub fn is_64(&self) -> (r: bool)
        ensures
            r == self.bit64(),
    {
        match self.bitness {
            Bitness::Bits64 => true,
            Bitness::Bits32 => false,
        }
    }
}


/// Classification of an image by its container format, as goblin parses it.
#[derive(Clone, Copy, Debug, PartialEq, Eq, Structural)]
pub enum ObjKind {
    /// An ELF object.
    Elf,
    /// A PE object.
    Pe,
    /// A magic number goblin does not recognize.
    Unknown,
    /// A recognized container that is neither ELF nor PE.
    Other,
    /// Too small or malformed to classify.
    Malformed,
}

/// What goblin::Object::parse decides for these bytes; a function of the
/// bytes alone.
pub uninterp spec fn obj_kind_of(bytes: Seq<u8>) -> ObjKind;

/// One ELF program header, reduced to the fields the loader reads.
pub struct PhdrInfo {
    /// Segment flags; bit 0 marks an executable segment.
    pub flags: u32,
    /// File offset of the segment.
    pub offset: u64,
    /// Size of the segment in the file.
    pub filesz: u64,
    /// Virtual address of the segment.
    pub vaddr: u64,
}

/// The ELF word width and program headers of these bytes; a function of
/// the bytes alone (empty for anything that is not an ELF).
pub uninterp spec fn elf_layout_of(bytes: Seq<u8>) -> (bool, Seq<PhdrInfo>);

/// One ELF section header: its resolved name and addresses.
pub struct ShdrInfo {
    /// Section name, resolved through the section-header string table;
    /// empty when unresolvable.
    pub name: Vec<u8>,
    /// Virtual address of the section.
    pub addr: u64,
    /// File offset of the section.
    pub offset: u64,
    /// Size of the section in the file.
    pub size: u64,
}

/// The ELF section headers of these bytes, names resolved; a function of
/// the bytes alone (empty for anything that is not an ELF).
pub uninterp spec fn elf_shdrs_of(bytes: Seq<u8>) -> Seq<ShdrInfo>;

/// One ELF symbol: its resolved name and value.
pub struct SymInfo {
    /// Symbol name, resolved through the string table; empty when
    /// unresolvable.
    pub name: Vec<u8>,
    /// Symbol value: for the functions looked up here, a virtual address.
    pub value: u64,
}

/// The ELF symbol table of these bytes, names resolved; a function of the
/// bytes alone (empty for anything that is not an ELF).
pub uninterp spec fn elf_syms_of(bytes: Seq<u8>) -> Seq<SymInfo>;

/// One PE section-table entry, reduced to the fields the loader reads.
pub struct PeSectInfo {
    /// Section characteristics; bit 29 marks an executable section.
    pub characteristics: u32,
    /// File offset of the raw data.
    pub ptr_raw: u32,
    /// Size of the raw data.
    pub size_raw: u32,
    /// Virtual address of the section, relative to the image base.
    pub vaddr: u32,
}

/// The PE word width, image base and section table of these bytes; a
/// function of the bytes alone (trivial for anything that is not a PE).
pub uninterp spec fn pe_layout_of(bytes: Seq<u8>) -> (bool, u64, Seq<PeSectInfo>);

/// Relies on goblin::Object::parse: classification is deterministic in the
/// bytes.
#[verifier::external_body]
fn parse_kind(bytes: &Vec<u8>) -> (r: ObjKind)
    ensures
        r == obj_kind_of(bytes@),
{
    match goblin::Object::parse(bytes) {
        Ok(goblin::Object::Elf(_)) => ObjKind::Elf,
        Ok(goblin::Object::PE(_)) => ObjKind::Pe,
        Ok(goblin::Object::Unknown(_)) => ObjKind::Unknown,
        Ok(_) => ObjKind::Other,
        Err(_) => ObjKind::Malformed,
    }
}

/// Relies on goblin's Elf::parse: the word width and the program headers
/// are a function of the bytes.
#[verifier::external_body]
fn elf_layout(bytes: &Vec<u8>) -> (r: (bool, Vec<PhdrInfo>))
    ensures
        (r.0, r.1@) == elf_layout_of(bytes@),
{
    match goblin::Object::parse(bytes) {
        Ok(goblin::Object::Elf(e)) => (e.is_64, e.program_headers.iter().map(|h| PhdrInfo {
            flags: h.p_flags, offset: h.p_offset, filesz: h.p_filesz, vaddr: h.p_vaddr,
        }).collect()),
        _ => (false, Vec::new()),
    }
}

/// Relies on goblin's Elf::parse and Strtab::get_at: the section headers
/// and their names are a function of the bytes; a name that does not
/// resolve becomes empty.
#[verifier::external_body]
fn elf_shdrs(bytes: &Vec<u8>) -> (r: Vec<ShdrInfo>)
    ensures
        r@ == elf_shdrs_of(bytes@),
{
    match goblin::Object::parse(bytes) {
        Ok(goblin::Object::Elf(e)) => e.section_headers.iter().map(|h| ShdrInfo {
            name: e.shdr_strtab.get_at(h.sh_name).unwrap_or("").as_bytes().to_vec(),
            addr: h.sh_addr, offset: h.sh_offset, size: h.sh_size,
        }).collect(),
        _ => Vec::new(),
    }
}

/// Relies on goblin's Elf::parse and Strtab::get_at: the symbol table and
/// its names are a function of the bytes; a name that does not resolve
/// becomes empty.
#[verifier::external_body]
fn elf_syms(bytes: &Vec<u8>) -> (r: Vec<SymInfo>)
    ensures
        r@ == elf_syms_of(bytes@),
{
    match goblin::Object::parse(bytes) {
        Ok(goblin::Object::Elf(e)) => e.syms.iter().map(|s| SymInfo {
            name: e.strtab.get_at(s.st_name).unwrap_or("").as_bytes().to_vec(),
            value: s.st_value,
        }).collect(),
        _ => Vec::new(),
    }
}

/// Relies on goblin's PE::parse: the word width, image base and section
/// table are a function of the bytes.
#[verifier::external_body]
fn pe_layout(bytes: &Vec<u8>) -> (r: (bool, u64, Vec<PeSectInfo>))
    ensures
        (r.0, r.1, r.2@) == pe_layout_of(bytes@),
{
    match goblin::Object::parse(bytes) {
        Ok(goblin::Object::PE(p)) => (p.is_64, p.image_base, p.sections.iter().map(|s| PeSectInfo {
            characteristics: s.characteristics, ptr_raw: s.pointer_to_raw_data,
            size_raw: s.size_of_raw_data, vaddr: s.virtual_address,
        }).collect()),
        _ => (false, 0, Vec::new()),
    }
}

/// ELF program-header flag marking an executable segment.
pub const PF_X: u32 = 1;

/// PE section characteristic marking an executable section.
pub const SCN_MEM_EXECUTE: u32 = 0x2000_0000;

/// The name of the section the default loader path and the patchers work
/// on: `.text`.
pub open spec fn text_name() -> Seq<u8> {
    seq![46u8, 116, 101, 120, 116]
}

/// The name of the helper section listing return-thunk sites:
/// `.return_sites`.
pub open spec fn return_sites_name() -> Seq<u8> {
    seq![46u8, 114, 101, 116, 117, 114, 110, 95, 115, 105, 116, 101, 115]
}

/// The name of the helper section listing retpoline sites:
/// `.retpoline_sites`.
pub open spec fn retpoline_sites_name() -> Seq<u8> {
    seq![46u8, 114, 101, 116, 112, 111, 108, 105, 110, 101, 95, 115, 105, 116, 101, 115]
}

/// Copy `bytes[start..end]`.
pub fn copy_range(bytes: &Vec<u8>, start: usize, end: usize) -> (r: Vec<u8>)
    requires
        start <= end <= bytes@.len(),
    ensures
        r@ == bytes@.subrange(start as int, end as int),
{
    let mut out: Vec<u8> = Vec::new();
    let mut i = start;
    while i < end
        invariant
            start <= i <= end <= bytes@.len(),
            out@ == bytes@.subrange(start as int, i as int),
        decreases end - i,
    {
        out.push(bytes[i]);
        proof {
            assert(bytes@.subrange(start as int, i as int) + seq![bytes@[i as int]]
                =~= bytes@.subrange(start as int, i + 1));
        }
        i = i + 1;
    }
    out
}

/// Index of the first section header with this name, or -1.
pub open spec fn find_named(shdrs: Seq<ShdrInfo>, name: Seq<u8>) -> int
    decreases shdrs.len(),
{
    if shdrs.len() == 0 {
        -1
    } else if shdrs[0].name@ == name {
        0
    } else {
        let r = find_named(shdrs.skip(1), name);
        if r < 0 {
            -1
        } else {
            r + 1
        }
    }
}

/// [`find_named`] finds exactly the first section header with the name.
pub proof fn lemma_find_named(shdrs: Seq<ShdrInfo>, name: Seq<u8>)
    ensures
        find_named(shdrs, name) == -1 ==> forall|j: int|
            0 <= j < shdrs.len() ==> (#[trigger] shdrs[j]).name@ != name,
        find_named(shdrs, name) != -1 ==> {
            &&& 0 <= find_named(shdrs, name) < shdrs.len()
            &&& shdrs[find_named(shdrs, name)].name@ == name
            &&& forall|j: int|
                0 <= j < find_named(shdrs, name) ==> (#[trigger] shdrs[j]).name@ != name
        },
    decreases shdrs.len(),
{
    if shdrs.len() > 0 && shdrs[0].name@ != name {
        lemma_find_named(shdrs.skip(1), name);
        assert(forall|j: int| 1 <= j < shdrs.len() ==> shdrs[j] == shdrs.skip(1)[j - 1]);
    }
}

/// Find the first section header with this name.
fn find_shdr(shdrs: &Vec<ShdrInfo>, name: &Vec<u8>) -> (r: Option<usize>)
    ensures
        match r {
            Some(i) => i == find_named(shdrs@, name@) && i < shdrs@.len(),
            None => find_named(shdrs@, name@) == -1,
        },
{
    let mut i: usize = 0;
    while i < shdrs.len()
        invariant
            0 <= i <= shdrs@.len(),
            forall|j: int| 0 <= j < i ==> (#[trigger] shdrs@[j]).name@ != name@,
        decreases shdrs@.len() - i,
    {
        if crate::textutil::bytes_eq(&shdrs[i].name, name) {
            proof {
                lemma_find_named(shdrs@, name@);
                let f = find_named(shdrs@, name@);
                assert(f != -1) by {
                    if f == -1 {
                        assert(shdrs@[i as int].name@ != name@);
                    }
                }
                assert(f == i) by {
                    if f < i {
                        assert(shdrs@[f].name@ != name@);
                    }
                    if f > i {
                        assert(shdrs@[i as int].name@ != name@);
                    }
                }
            }
            return Some(i);
        }
        i = i + 1;
    }
    proof {
        lemma_find_named(shdrs@, name@);
        let f = find_named(shdrs@, name@);
        if f != -1 {
            assert(shdrs@[f].name@ != name@);
        }
    }
    None
}

/// A program header the scan covers: marked executable.
pub open spec fn phdr_exec(h: PhdrInfo) -> bool {
    h.flags & PF_X != 0
}

/// The segment lies inside the file and its addresses fit the machine.
pub open spec fn phdr_fits(b: Seq<u8>, h: PhdrInfo) -> bool {
    &&& h.offset + h.filesz <= b.len()
    &&& h.vaddr + h.filesz <= u64::MAX
    &&& h.vaddr <= usize::MAX
}

/// The region a program header yields.
pub open spec fn sec_from_phdr(s: Section, b: Seq<u8>, is64: bool, h: PhdrInfo) -> bool {
    &&& s.spec_file_offset() == h.offset
    &&& s.spec_section_vaddr() == h.vaddr
    &&& s.spec_program_base() == 0
    &&& s.bit64() == is64
    &&& s@ == b.subrange(h.offset as int, h.offset + h.filesz)
    &&& s.wf()
}

/// A PE section-table entry the scan covers: marked executable.
pub open spec fn pesect_exec(s: PeSectInfo) -> bool {
    s.characteristics & SCN_MEM_EXECUTE != 0
}

/// The section lies inside the file and its addresses fit the machine.
pub open spec fn pesect_fits(b: Seq<u8>, base: u64, s: PeSectInfo) -> bool {
    &&& s.ptr_raw + s.size_raw <= b.len()
    &&& base + s.vaddr + s.size_raw <= u64::MAX
    &&& base + s.vaddr <= usize::MAX
    &&& base <= usize::MAX
}

/// The region a PE section yields; the image base becomes the program
/// base.
pub open spec fn sec_from_pesect(s: Section, b: Seq<u8>, is64: bool, base: u64, e: PeSectInfo) -> bool {
    &&& s.spec_file_offset() == e.ptr_raw
    &&& s.spec_section_vaddr() == e.vaddr
    &&& s.spec_program_base() == base
    &&& s.bit64() == is64
    &&& s@ == b.subrange(e.ptr_raw as int, e.ptr_raw + e.size_raw)
    &&& s.wf()
}

/// The section lies inside the file and its addresses fit the machine.
pub open spec fn shdr_fits(b: Seq<u8>, h: ShdrInfo) -> bool {
    &&& h.offset + h.size <= b.len()
    &&& h.addr + h.size <= u64::MAX
    &&& h.addr <= usize::MAX
}

/// The region a named section header yields.
pub open spec fn sec_from_shdr(s: Section, b: Seq<u8>, is64: bool, h: ShdrInfo) -> bool {
    &&& s.spec_file_offset() == h.offset
    &&& s.spec_section_vaddr() == h.addr
    &&& s.spec_program_base() == 0
    &&& s.bit64() == is64
    &&& s@ == b.subrange(h.offset as int, h.offset + h.size)
    &&& s.wf()
}

/// Every executable program header fits the file and the machine.
pub open spec fn all_phdrs_fit(b: Seq<u8>, phdrs: Seq<PhdrInfo>) -> bool {
    forall|j: int| 0 <= j < phdrs.len() && phdr_exec(#[trigger] phdrs[j]) ==> phdr_fits(b, phdrs[j])
}

/// Every section header named `.text` fits the file and the machine.
pub open spec fn all_texts_fit(b: Seq<u8>, shdrs: Seq<ShdrInfo>) -> bool {
    forall|j: int|
        0 <= j < shdrs.len() && (#[trigger] shdrs[j]).name@ == text_name() ==> shdr_fits(
            b,
            shdrs[j],
        )
}

/// Every executable PE section fits the file and the machine.
pub open spec fn all_pesects_fit(b: Seq<u8>, base: u64, sects: Seq<PeSectInfo>) -> bool {
    forall|j: int|
        0 <= j < sects.len() && pesect_exec(#[trigger] sects[j]) ==> pesect_fits(b, base, sects[j])
}

/// Number of selected source entries below `upto`.
pub open spec fn sel_count(upto: int, ok: spec_fn(int) -> bool) -> int
    decreases upto,
{
    if upto <= 0 {
        0
    } else if ok(upto - 1) {
        sel_count(upto - 1, ok) + 1
    } else {
        sel_count(upto - 1, ok)
    }
}

/// The built regions are exactly the selected source entries below `upto`,
/// once each, in source order: there are as many regions as selected
/// entries, and the region at index `sel_count(j, ok)` is the one built
/// from the selected entry `j`.
pub open spec fn map_exact(
    secs: Seq<Section>,
    upto: int,
    ok: spec_fn(int) -> bool,
    rel: spec_fn(Section, int) -> bool,
) -> bool {
    &&& secs.len() == sel_count(upto, ok)
    &&& forall|j: int|
        0 <= j < upto && #[trigger] ok(j) ==> 0 <= sel_count(j, ok) < secs.len() && rel(
            secs[sel_count(j, ok)],
            j,
        )
}

/// Building the region of the selected entry `j` extends the exact map by
/// one region, at the next index.
#[verifier::spinoff_prover]
proof fn lemma_map_push(
    secs: Seq<Section>,
    j: int,
    ok: spec_fn(int) -> bool,
    rel: spec_fn(Section, int) -> bool,
    s: Section,
)
    requires
        map_exact(secs, j, ok, rel),
        0 <= j,
        ok(j),
        rel(s, j),
    ensures
        map_exact(secs.push(s), j + 1, ok, rel),
{
    let secs2 = secs.push(s);
    assert(sel_count(j + 1, ok) == sel_count(j, ok) + 1);
    assert(secs2[secs.len() as int] == s);
    assert(forall|i: int| 0 <= i < secs.len() ==> secs2[i] == secs[i]);
    assert forall|j2: int| 0 <= j2 < j + 1 && #[trigger] ok(j2) implies 0 <= sel_count(j2, ok)
        < secs2.len() && rel(secs2[sel_count(j2, ok)], j2) by {
        if j2 < j {
            assert(0 <= sel_count(j2, ok) < secs.len());
            assert(rel(secs[sel_count(j2, ok)], j2));
        } else {
            assert(sel_count(j, ok) == secs.len());
        }
    }
}

/// Passing over an unselected entry extends the exact map for free.
proof fn lemma_map_skip(
    secs: Seq<Section>,
    j: int,
    ok: spec_fn(int) -> bool,
    rel: spec_fn(Section, int) -> bool,
)
    requires
        map_exact(secs, j, ok, rel),
        0 <= j,
        !ok(j),
    ensures
        map_exact(secs, j + 1, ok, rel),
{
    assert(sel_count(j + 1, ok) == sel_count(j, ok));
}

/// The executable program headers, as a selection predicate.
pub open spec fn phdr_ok(phdrs: Seq<PhdrInfo>) -> spec_fn(int) -> bool {
    |j: int| phdr_exec(phdrs[j])
}

/// Region built from program header `j`, as a relation.
pub open spec fn phdr_rel(b: Seq<u8>, is64: bool, phdrs: Seq<PhdrInfo>) -> spec_fn(Section, int) -> bool {
    |s: Section, j: int| sec_from_phdr(s, b, is64, phdrs[j])
}

/// The section headers named `.text`, as a selection predicate.
pub open spec fn shdr_text_ok(shdrs: Seq<ShdrInfo>) -> spec_fn(int) -> bool {
    |j: int| shdrs[j].name@ == text_name()
}

/// Region built from section header `j`, as a relation.
pub open spec fn shdr_rel(b: Seq<u8>, is64: bool, shdrs: Seq<ShdrInfo>) -> spec_fn(Section, int) -> bool {
    |s: Section, j: int| sec_from_shdr(s, b, is64, shdrs[j])
}

/// The executable PE sections, as a selection predicate.
pub open spec fn pesect_ok(sects: Seq<PeSectInfo>) -> spec_fn(int) -> bool {
    |j: int| pesect_exec(sects[j])
}

/// Region built from PE section `j`, as a relation.
pub open spec fn pesect_rel(b: Seq<u8>, is64: bool, base: u64, sects: Seq<PeSectInfo>) -> spec_fn(
    Section,
    int,
) -> bool {
    |s: Section, j: int| sec_from_pesect(s, b, is64, base, sects[j])
}

/// What the ELF executable-segment path yields: one region per executable
/// program header when they all fit, else a parse error.
pub open spec fn elf_phdr_result(b: Seq<u8>, r: Result<Vec<Section>, Error>) -> bool {
    let (is64, phdrs) = elf_layout_of(b);
    if all_phdrs_fit(b, phdrs) {
        match r {
            Ok(secs) => {
                &&& (forall|i: int| 0 <= i < secs@.len() ==> (#[trigger] secs@[i]).wf())
                &&& map_exact(
                    secs@,
                    phdrs.len() as int,
                    phdr_ok(phdrs),
                    phdr_rel(b, is64, phdrs),
                )
            },
            Err(_) => false,
        }
    } else {
        r == Err::<Vec<Section>, Error>(Error::ParseErr)
    }
}

/// What the ELF `.text` path (the default) yields: one region per section
/// header named `.text` when they all fit, else a parse error.
pub open spec fn elf_text_result(b: Seq<u8>, r: Result<Vec<Section>, Error>) -> bool {
    let (is64, _) = elf_layout_of(b);
    let shdrs = elf_shdrs_of(b);
    if all_texts_fit(b, shdrs) {
        match r {
            Ok(secs) => {
                &&& (forall|i: int| 0 <= i < secs@.len() ==> (#[trigger] secs@[i]).wf())
                &&& map_exact(
                    secs@,
                    shdrs.len() as int,
                    shdr_text_ok(shdrs),
                    shdr_rel(b, is64, shdrs),
                )
            },
            Err(_) => false,
        }
    } else {
        r == Err::<Vec<Section>, Error>(Error::ParseErr)
    }
}

/// What the PE path yields: one region per executable section when they
/// all fit, else a parse error.
pub open spec fn pe_result(b: Seq<u8>, r: Result<Vec<Section>, Error>) -> bool {
    let (is64, base, sects) = pe_layout_of(b);
    if all_pesects_fit(b, base, sects) {
        match r {
            Ok(secs) => {
                &&& (forall|i: int| 0 <= i < secs@.len() ==> (#[trigger] secs@[i]).wf())
                &&& map_exact(
                    secs@,
                    sects.len() as int,
                    pesect_ok(sects),
                    pesect_rel(b, is64, base, sects),
                )
            },
            Err(_) => false,
        }
    } else {
        r == Err::<Vec<Section>, Error>(Error::ParseErr)
    }
}

/// The single whole-file region raw mode yields.
pub open spec fn raw_section(s: Section, b: Seq<u8>, bit64: bool) -> bool {
    &&& s.spec_file_offset() == 0
    &&& s.spec_section_vaddr() == 0
    &&& s.spec_program_base() == 0
    &&& s.bit64() == bit64
    &&& s@ == b
    &&& s.wf()
}

impl Binary {
    /// The whole file as one 64-bit region at address zero.
    fn sections_raw(&self, bits64: bool) -> (r: Vec<Section>)
        ensures
            r@.len() == 1,
            raw_section(r@[0], self@, bits64),
    {
        let bytes = copy_range(&self.bytes, 0, self.bytes.len());
        proof {
            assert(self@.subrange(0, self@.len() as int) =~= self@);
        }
        let bit = if bits64 {
            Bitness::Bits64
        } else {
            Bitness::Bits32
        };
        let s = Section::make(0, 0, 0, bit, bytes);
        let mut r: Vec<Section> = Vec::new();
        r.push(s);
        r
    }

    /// One region per executable ELF program header; see
    /// [`elf_phdr_result`].
    /// One region per executable ELF program header; see
    /// [`elf_phdr_result`].
    #[verifier::spinoff_prover]
    fn sections_elf_phdrs(&self) -> (r: Result<Vec<Section>, Error>)
        ensures
            elf_phdr_result(self@, r),
    {
        let (is64, phdrs) = elf_layout(&self.bytes);
        proof {
            assert(is64 == elf_layout_of(self@).0 && phdrs@ == elf_layout_of(self@).1);
        }
        let ghost okp = phdr_ok(phdrs@);
        let ghost relp = phdr_rel(self@, is64, phdrs@);
        let n = self.bytes.len();
        let mut secs: Vec<Section> = Vec::new();
        let mut j: usize = 0;
        while j < phdrs.len()
            invariant
                0 <= j <= phdrs@.len(),
                n == self@.len(),
                is64 == elf_layout_of(self@).0,
                phdrs@ == elf_layout_of(self@).1,
                okp == phdr_ok(phdrs@),
                relp == phdr_rel(self@, is64, phdrs@),
                forall|i: int| 0 <= i < secs@.len() ==> (#[trigger] secs@[i]).wf(),
                map_exact(secs@, j as int, okp, relp),
                forall|j2: int|
                    0 <= j2 < j && phdr_exec(#[trigger] phdrs@[j2]) ==> phdr_fits(self@, phdrs@[j2]),
            decreases phdrs@.len() - j,
        {
            let ghost secs0 = secs@;
            let h = &phdrs[j];
            if h.flags & PF_X != 0 {
                let lhs: u128 = (h.offset as u128) + (h.filesz as u128);
                let vhs: u128 = (h.vaddr as u128) + (h.filesz as u128);
                if lhs > (n as u128) || vhs > (u64::MAX as u128) || h.vaddr > (usize::MAX as u64) {
                    proof {
                        assert(phdr_exec(phdrs@[j as int]) && !phdr_fits(self@, phdrs@[j as int]));
                        assert(!all_phdrs_fit(self@, phdrs@));
                    }
                    return Err(Error::ParseErr);
                }
                let start = h.offset as usize;
                let end = start + (h.filesz as usize);
                let bytes = copy_range(&self.bytes, start, end);
                let s = Section::make(start, h.vaddr as usize, 0, if is64 {
                    Bitness::Bits64
                } else {
                    Bitness::Bits32
                }, bytes);
                proof {
                    assert(sec_from_phdr(s, self@, is64, phdrs@[j as int]));
                    assert(okp(j as int) && relp(s, j as int));
                    lemma_map_push(secs0, j as int, okp, relp, s);
                }
                secs.push(s);
            } else {
                proof {
                    assert(!okp(j as int));
                    lemma_map_skip(secs0, j as int, okp, relp);
                }
            }
            j = j + 1;
        }
        proof {
            assert(all_phdrs_fit(self@, phdrs@));
        }
        Ok(secs)
    }

    /// One region per ELF section header named `.text`; see
    /// [`elf_text_result`].
    #[verifier::spinoff_prover]
    fn sections_elf_text(&self) -> (r: Result<Vec<Section>, Error>)
        ensures
            elf_text_result(self@, r),
    {
        let (is64, _phdrs) = elf_layout(&self.bytes);
        let shdrs = elf_shdrs(&self.bytes);
        proof {
            assert(is64 == elf_layout_of(self@).0);
        }
        let ghost okp = shdr_text_ok(shdrs@);
        let ghost relp = shdr_rel(self@, is64, shdrs@);
        let n = self.bytes.len();
        let mut secs: Vec<Section> = Vec::new();
        let mut j: usize = 0;
        let mut tname: Vec<u8> = Vec::new();
        tname.push(46);
        tname.push(116);
        tname.push(101);
        tname.push(120);
        tname.push(116);
        proof {
            assert(tname@ =~= text_name());
        }
        while j < shdrs.len()
            invariant
                0 <= j <= shdrs@.len(),
                n == self@.len(),
                tname@ == text_name(),
                is64 == elf_layout_of(self@).0,
                shdrs@ == elf_shdrs_of(self@),
                okp == shdr_text_ok(shdrs@),
                relp == shdr_rel(self@, is64, shdrs@),
                forall|i: int| 0 <= i < secs@.len() ==> (#[trigger] secs@[i]).wf(),
                map_exact(secs@, j as int, okp, relp),
                forall|j2: int|
                    0 <= j2 < j && (#[trigger] shdrs@[j2]).name@ == text_name() ==> shdr_fits(
                        self@,
                        shdrs@[j2],
                    ),
            decreases shdrs@.len() - j,
        {
            let ghost secs0 = secs@;
            if crate::textutil::bytes_eq(&shdrs[j].name, &tname) {
                let h = &shdrs[j];
                let lhs: u128 = (h.offset as u128) + (h.size as u128);
                let vhs: u128 = (h.addr as u128) + (h.size as u128);
                if lhs > (n as u128) || vhs > (u64::MAX as u128) || h.addr > (usize::MAX as u64) {
                    proof {
                        assert(shdrs@[j as int].name@ == text_name() && !shdr_fits(
                            self@,
                            shdrs@[j as int],
                        ));
                        assert(!all_texts_fit(self@, shdrs@));
                    }
                    return Err(Error::ParseErr);
                }
                let start = h.offset as usize;
                let end = start + (h.size as usize);
                let bytes = copy_range(&self.bytes, start, end);
                let s = Section::make(start, h.addr as usize, 0, if is64 {
                    Bitness::Bits64
                } else {
                    Bitness::Bits32
                }, bytes);
                proof {
                    assert(sec_from_shdr(s, self@, is64, shdrs@[j as int]));
                    assert(okp(j as int) && relp(s, j as int));
                    lemma_map_push(secs0, j as int, okp, relp, s);
                }
                secs.push(s);
            } else {
                proof {
                    assert(!okp(j as int));
                    lemma_map_skip(secs0, j as int, okp, relp);
                }
            }
            j = j + 1;
        }
        proof {
            assert(all_texts_fit(self@, shdrs@));
        }
        Ok(secs)
    }

    /// One region per executable PE section; see [`pe_result`].
    #[verifier::spinoff_prover]
    fn sections_pe(&self) -> (r: Result<Vec<Section>, Error>)
        ensures
            pe_result(self@, r),
    {
        let (is64, base, sects) = pe_layout(&self.bytes);
        proof {
            assert(is64 == pe_layout_of(self@).0 && base == pe_layout_of(self@).1 && sects@
                == pe_layout_of(self@).2);
        }
        let ghost okp = pesect_ok(sects@);
        let ghost relp = pesect_rel(self@, is64, base, sects@);
        let n = self.bytes.len();
        let mut secs: Vec<Section> = Vec::new();
        let mut j: usize = 0;
        while j < sects.len()
            invariant
                0 <= j <= sects@.len(),
                n == self@.len(),
                is64 == pe_layout_of(self@).0,
                base == pe_layout_of(self@).1,
                sects@ == pe_layout_of(self@).2,
                okp == pesect_ok(sects@),
                relp == pesect_rel(self@, is64, base, sects@),
                forall|i: int| 0 <= i < secs@.len() ==> (#[trigger] secs@[i]).wf(),
                map_exact(secs@, j as int, okp, relp),
                forall|j2: int|
                    0 <= j2 < j && pesect_exec(#[trigger] sects@[j2]) ==> pesect_fits(
                        self@,
                        base,
                        sects@[j2],
                    ),
            decreases sects@.len() - j,
        {
            let ghost secs0 = secs@;
            let e = &sects[j];
            if e.characteristics & SCN_MEM_EXECUTE != 0 {
                let lhs: u128 = (e.ptr_raw as u128) + (e.size_raw as u128);
                let vhs: u128 = (base as u128) + (e.vaddr as u128) + (e.size_raw as u128);
                let bvs: u128 = (base as u128) + (e.vaddr as u128);
                if lhs > (n as u128) || vhs > (u64::MAX as u128) || bvs > (usize::MAX as u128)
                    || (base as u128) > (usize::MAX as u128) {
                    proof {
                        assert(pesect_exec(sects@[j as int]) && !pesect_fits(
                            self@,
                            base,
                            sects@[j as int],
                        ));
                        assert(!all_pesects_fit(self@, base, sects@));
                    }
                    return Err(Error::ParseErr);
                }
                let start = e.ptr_raw as usize;
                let end = start + (e.size_raw as usize);
                let bytes = copy_range(&self.bytes, start, end);
                let s = Section::make(start, e.vaddr as usize, base as usize, if is64 {
                    Bitness::Bits64
                } else {
                    Bitness::Bits32
                }, bytes);
                proof {
                    assert(sec_from_pesect(s, self@, is64, base, sects@[j as int]));
                    assert(okp(j as int) && relp(s, j as int));
                    lemma_map_push(secs0, j as int, okp, relp, s);
                }
                secs.push(s);
            } else {
                proof {
                    assert(!okp(j as int));
                    lemma_map_skip(secs0, j as int, okp, relp);
                }
            }
            j = j + 1;
        }
        proof {
            assert(all_pesects_fit(self@, base, sects@));
        }
        Ok(secs)
    }

    /// The code regions a scan covers. `raw = Some(true)`: the whole file,
    /// 64-bit, at address zero. `raw = Some(false)`: the executable ELF
    /// segments or PE sections, and an error for anything else. `raw =
    /// None` (the default): the `.text` sections of an ELF, the executable
    /// sections of a PE, a whole-file 32-bit region when the magic is not
    /// recognized, and a parse error for a malformed object.
    #[verifier::spinoff_prover]
pub fn sections(&self, raw: Option<bool>) -> (r: Result<Vec<Section>, Error>)
        ensures
            raw == Some(true) ==> match r {
                Ok(secs) => secs@.len() == 1 && raw_section(secs@[0], self@, true),
                Err(_) => false,
            },
            raw == Some(false) ==> match obj_kind_of(self@) {
                ObjKind::Elf => elf_phdr_result(self@, r),
                ObjKind::Pe => pe_result(self@, r),
                ObjKind::Unknown => r == Err::<Vec<Section>, Error>(Error::ParseErr),
                ObjKind::Malformed => r == Err::<Vec<Section>, Error>(Error::ParseErr),
                ObjKind::Other => r == Err::<Vec<Section>, Error>(Error::Unsupported),
            },
            raw is None ==> match obj_kind_of(self@) {
                ObjKind::Elf => elf_text_result(self@, r),
                ObjKind::Pe => pe_result(self@, r),
                ObjKind::Unknown => match r {
                    Ok(secs) => secs@.len() == 1 && raw_section(secs@[0], self@, false),
                    Err(_) => false,
                },
                ObjKind::Other => match r {
                    Ok(secs) => secs@.len() == 1 && raw_section(secs@[0], self@, false),
                    Err(_) => false,
                },
                ObjKind::Malformed => r == Err::<Vec<Section>, Error>(Error::ParseErr),
            },
    {
        match raw {
            Some(true) => Ok(self.sections_raw(true)),
            Some(false) => match parse_kind(&self.bytes) {
                ObjKind::Elf => self.sections_elf_phdrs(),
                ObjKind::Pe => self.sections_pe(),
                ObjKind::Unknown => Err(Error::ParseErr),
                ObjKind::Malformed => Err(Error::ParseErr),
                ObjKind::Other => Err(Error::Unsupported),
            },
            None => match parse_kind(&self.bytes) {
                ObjKind::Elf => self.sections_elf_text(),
                ObjKind::Pe => self.sections_pe(),
                ObjKind::Unknown => Ok(self.sections_raw(false)),
                ObjKind::Other => Ok(self.sections_raw(false)),
                ObjKind::Malformed => Err(Error::ParseErr),
            },
        }
    }

    /// How the image classifies by its container format.
    pub fn object_kind(&self) -> (r: ObjKind)
        ensures
            r == obj_kind_of(self@),
    {
        parse_kind(&self.bytes)
    }
}

/// Value of the first symbol with this name, as the symbol resolver
/// returns it.
pub open spec fn spec_find_sym(syms: Seq<SymInfo>, name: Seq<u8>) -> Option<u64>
    decreases syms.len(),
{
    if syms.len() == 0 {
        None
    } else if syms[0].name@ == name {
        Some(syms[0].value)
    } else {
        spec_find_sym(syms.skip(1), name)
    }
}

/// The prefix shared by the sixteen per-register indirect thunk symbols:
/// `__x86_indirect_thunk_`.
pub open spec fn thunk_prefix() -> Seq<u8> {
    seq![95u8, 95, 120, 56, 54, 95, 105, 110, 100, 105, 114, 101, 99, 116, 95, 116, 104, 117, 110, 107, 95]
}

/// The register suffix of the `i`-th indirect thunk symbol, in the
/// kernel's register order.
pub open spec fn reg_name_spec(i: int) -> Seq<u8> {
    if i == 0 {
        seq![114u8, 97, 120]
    } else if i == 1 {
        seq![114u8, 99, 120]
    } else if i == 2 {
        seq![114u8, 100, 120]
    } else if i == 3 {
        seq![114u8, 98, 120]
    } else if i == 4 {
        seq![114u8, 115, 112]
    } else if i == 5 {
        seq![114u8, 98, 112]
    } else if i == 6 {
        seq![114u8, 115, 105]
    } else if i == 7 {
        seq![114u8, 100, 105]
    } else if i == 8 {
        seq![114u8, 56]
    } else if i == 9 {
        seq![114u8, 57]
    } else if i == 10 {
        seq![114u8, 49, 48]
    } else if i == 11 {
        seq![114u8, 49, 49]
    } else if i == 12 {
        seq![114u8, 49, 50]
    } else if i == 13 {
        seq![114u8, 49, 51]
    } else if i == 14 {
        seq![114u8, 49, 52]
    } else {
        seq![114u8, 49, 53]
    }
}

/// The full name of the `i`-th indirect thunk symbol.
pub open spec fn thunk_name_spec(i: int) -> Seq<u8> {
    thunk_prefix() + reg_name_spec(i)
}

/// The name of the return-thunk symbol: `__x86_return_thunk`.
pub open spec fn return_thunk_name() -> Seq<u8> {
    seq![95u8, 95, 120, 56, 54, 95, 114, 101, 116, 117, 114, 110, 95, 116, 104, 117, 110, 107]
}

/// The name of the thunk-array symbol the retpoline patch needs:
/// `__x86_indirect_thunk_array`.
pub open spec fn thunk_array_name() -> Seq<u8> {
    seq![95u8, 95, 120, 56, 54, 95, 105, 110, 100, 105, 114, 101, 99, 116, 95, 116, 104, 117, 110, 107, 95, 97, 114, 114, 97, 121]
}

/// The `i`-th of the eight kernel symbols whose offsets the magic listing
/// prints.
pub open spec fn magic_name_spec(i: int) -> Seq<u8> {
    if i == 0 {
        seq![109u8, 111, 100, 112, 114, 111, 98, 101, 95, 112, 97, 116, 104]
    } else if i == 1 {
        seq![99u8, 111, 114, 101, 95, 112, 97, 116, 116, 101, 114, 110]
    } else if i == 2 {
        seq![105u8, 110, 105, 116, 95, 99, 114, 101, 100]
    } else if i == 3 {
        seq![112u8, 114, 101, 112, 97, 114, 101, 95, 107, 101, 114, 110, 101, 108, 95, 99, 114, 101, 100]
    } else if i == 4 {
        seq![99u8, 111, 109, 109, 105, 116, 95, 99, 114, 101, 100, 115]
    } else if i == 5 {
        seq![102u8, 105, 110, 100, 95, 116, 97, 115, 107, 95, 98, 121, 95, 118, 112, 105, 100]
    } else if i == 6 {
        seq![105u8, 110, 105, 116, 95, 110, 115, 112, 114, 111, 120, 121]
    } else {
        seq![115u8, 119, 105, 116, 99, 104, 95, 116, 97, 115, 107, 95, 110, 97, 109, 101, 115, 112, 97, 99, 101, 115]
    }
}

/// The register suffix of the `i`-th indirect thunk symbol; see
/// [`reg_name_spec`].
fn reg_name(i: usize) -> (r: Vec<u8>)
    requires
        i < 16,
    ensures
        r@ == reg_name_spec(i as int),
{
    let mut v: Vec<u8> = Vec::new();
    if i == 0 {
        v.push(114);
        v.push(97);
        v.push(120);
    } else if i == 1 {
        v.push(114);
        v.push(99);
        v.push(120);
    } else if i == 2 {
        v.push(114);
        v.push(100);
        v.push(120);
    } else if i == 3 {
        v.push(114);
        v.push(98);
        v.push(120);
    } else if i == 4 {
        v.push(114);
        v.push(115);
        v.push(112);
    } else if i == 5 {
        v.push(114);
        v.push(98);
        v.push(112);
    } else if i == 6 {
        v.push(114);
        v.push(115);
        v.push(105);
    } else if i == 7 {
        v.push(114);
        v.push(100);
        v.push(105);
    } else if i == 8 {
        v.push(114);
        v.push(56);
    } else if i == 9 {
        v.push(114);
        v.push(57);
    } else if i == 10 {
        v.push(114);
        v.push(49);
        v.push(48);
    } else if i == 11 {
        v.push(114);
        v.push(49);
        v.push(49);
    } else if i == 12 {
        v.push(114);
        v.push(49);
        v.push(50);
    } else if i == 13 {
        v.push(114);
        v.push(49);
        v.push(51);
    } else if i == 14 {
        v.push(114);
        v.push(49);
        v.push(52);
    } else {
        v.push(114);
        v.push(49);
        v.push(53);
    }
    proof {
        assert(v@ =~= reg_name_spec(i as int));
    }
    v
}

/// The `i`-th magic symbol name; see [`magic_name_spec`].
fn magic_name(i: usize) -> (r: Vec<u8>)
    requires
        i < 8,
    ensures
        r@ == magic_name_spec(i as int),
{
    let mut v: Vec<u8> = Vec::new();
    if i == 0 {
        v.push(109);
        v.push(111);
        v.push(100);
        v.push(112);
        v.push(114);
        v.push(111);
        v.push(98);
        v.push(101);
        v.push(95);
        v.push(112);
        v.push(97);
        v.push(116);
        v.push(104);
    } else if i == 1 {
        v.push(99);
        v.push(111);
        v.push(114);
        v.push(101);
        v.push(95);
        v.push(112);
        v.push(97);
        v.push(116);
        v.push(116);
        v.push(101);
        v.push(114);
        v.push(110);
    } else if i == 2 {
        v.push(105);
        v.push(110);
        v.push(105);
        v.push(116);
        v.push(95);
        v.push(99);
        v.push(114);
        v.push(101);
        v.push(100);
    } else if i == 3 {
        v.push(112);
        v.push(114);
        v.push(101);
        v.push(112);
        v.push(97);
        v.push(114);
        v.push(101);
        v.push(95);
        v.push(107);
        v.push(101);
        v.push(114);
        v.push(110);
        v.push(101);
        v.push(108);
        v.push(95);
        v.push(99);
        v.push(114);
        v.push(101);
        v.push(100);
    } else if i == 4 {
        v.push(99);
        v.push(111);
        v.push(109);
        v.push(109);
        v.push(105);
        v.push(116);
        v.push(95);
        v.push(99);
        v.push(114);
        v.push(101);
        v.push(100);
        v.push(115);
    } else if i == 5 {
        v.push(102);
        v.push(105);
        v.push(110);
        v.push(100);
        v.push(95);
        v.push(116);
        v.push(97);
        v.push(115);
        v.push(107);
        v.push(95);
        v.push(98);
        v.push(121);
        v.push(95);
        v.push(118);
        v.push(112);
        v.push(105);
        v.push(100);
    } else if i == 6 {
        v.push(105);
        v.push(110);
        v.push(105);
        v.push(116);
        v.push(95);
        v.push(110);
        v.push(115);
        v.push(112);
        v.push(114);
        v.push(111);
        v.push(120);
        v.push(121);
    } else {
        v.push(115);
        v.push(119);
        v.push(105);
        v.push(116);
        v.push(99);
        v.push(104);
        v.push(95);
        v.push(116);
        v.push(97);
        v.push(115);
        v.push(107);
        v.push(95);
        v.push(110);
        v.push(97);
        v.push(109);
        v.push(101);
        v.push(115);
        v.push(112);
        v.push(97);
        v.push(99);
        v.push(101);
        v.push(115);
    }
    proof {
        assert(v@ =~= magic_name_spec(i as int));
    }
    v
}

/// The full name of the `i`-th indirect thunk symbol; see
/// [`thunk_name_spec`].
fn thunk_name(i: usize) -> (r: Vec<u8>)
    requires
        i < 16,
    ensures
        r@ == thunk_name_spec(i as int),
{
    let mut v: Vec<u8> = Vec::new();
    v.push(95);
    v.push(95);
    v.push(120);
    v.push(56);
    v.push(54);
    v.push(95);
    v.push(105);
    v.push(110);
    v.push(100);
    v.push(105);
    v.push(114);
    v.push(101);
    v.push(99);
    v.push(116);
    v.push(95);
    v.push(116);
    v.push(104);
    v.push(117);
    v.push(110);
    v.push(107);
    v.push(95);
    proof {
        assert(v@ =~= thunk_prefix());
    }
    let suffix = reg_name(i);
    crate::textutil::push_all(&mut v, &suffix);
    v
}

/// The return-thunk symbol name; see [`return_thunk_name`].
pub fn return_thunk_sym() -> (r: Vec<u8>)
    ensures
        r@ == return_thunk_name(),
{
    let mut v: Vec<u8> = Vec::new();
    v.push(95);
    v.push(95);
    v.push(120);
    v.push(56);
    v.push(54);
    v.push(95);
    v.push(114);
    v.push(101);
    v.push(116);
    v.push(117);
    v.push(114);
    v.push(110);
    v.push(95);
    v.push(116);
    v.push(104);
    v.push(117);
    v.push(110);
    v.push(107);
    proof {
        assert(v@ =~= return_thunk_name());
    }
    v
}

/// The thunk-array symbol name; see [`thunk_array_name`].
pub fn thunk_array_sym() -> (r: Vec<u8>)
    ensures
        r@ == thunk_array_name(),
{
    let mut v: Vec<u8> = Vec::new();
    v.push(95);
    v.push(95);
    v.push(120);
    v.push(56);
    v.push(54);
    v.push(95);
    v.push(105);
    v.push(110);
    v.push(100);
    v.push(105);
    v.push(114);
    v.push(101);
    v.push(99);
    v.push(116);
    v.push(95);
    v.push(116);
    v.push(104);
    v.push(117);
    v.push(110);
    v.push(107);
    v.push(95);
    v.push(97);
    v.push(114);
    v.push(114);
    v.push(97);
    v.push(121);
    proof {
        assert(v@ =~= thunk_array_name());
    }
    v
}

/// `"#define "`.
pub open spec fn define_prefix() -> Seq<u8> {
    seq![35u8, 100, 101, 102, 105, 110, 101, 32]
}

/// A name padded with spaces to at least twenty-four characters.
pub open spec fn pad24(s: Seq<u8>) -> Seq<u8> {
    if s.len() < 24 {
        s + Seq::new((24 - s.len()) as nat, |i: int| 32u8)
    } else {
        s
    }
}

/// One line of the magic listing: `#define NAME offset`, the name
/// uppercased and padded, the offset relative to `_text` in hex.
pub open spec fn magic_line(name: Seq<u8>, addr: u64, base: u64) -> Seq<u8> {
    define_prefix() + pad24(Seq::new(name.len(), |i: int| crate::textutil::spec_upper(name[i])))
        + seq![32u8] + crate::textutil::spec_fmt_hex(addr.wrapping_sub(base) as int)
}

/// The lines of the magic listing, in the fixed symbol order, one line per
/// symbol present in the image.
pub open spec fn spec_magic_lines(syms: Seq<SymInfo>, base: u64, i: int) -> Seq<Seq<u8>>
    decreases 8 - i,
{
    if i < 0 || i >= 8 {
        Seq::empty()
    } else {
        let rest = spec_magic_lines(syms, base, i + 1);
        match spec_find_sym(syms, magic_name_spec(i)) {
            Some(a) => seq![magic_line(magic_name_spec(i), a, base)] + rest,
            None => rest,
        }
    }
}

impl Binary {
    /// Address of the first symbol with this name. Only an ELF image has a
    /// symbol table to search; asking anything else is an error.
    pub fn get_sym_addr(&self, fnname: &Vec<u8>) -> (r: Result<Option<u64>, Error>)
        ensures
            obj_kind_of(self@) == ObjKind::Elf ==> r == Ok::<Option<u64>, Error>(
                spec_find_sym(elf_syms_of(self@), fnname@),
            ),
            obj_kind_of(self@) == ObjKind::Malformed ==> r == Err::<Option<u64>, Error>(
                Error::ParseErr,
            ),
            !(obj_kind_of(self@) == ObjKind::Elf) && !(obj_kind_of(self@) == ObjKind::Malformed)
                ==> r == Err::<Option<u64>, Error>(Error::NotElf),
            r is Ok ==> obj_kind_of(self@) == ObjKind::Elf,
    {
        match parse_kind(&self.bytes) {
            ObjKind::Elf => {
                let syms = elf_syms(&self.bytes);
                let mut i: usize = 0;
                proof {
                    assert(syms@.skip(0) =~= syms@);
                }
                while i < syms.len()
                    invariant
                        0 <= i <= syms@.len(),
                        obj_kind_of(self@) == ObjKind::Elf,
                        syms@ == elf_syms_of(self@),
                        spec_find_sym(syms@, fnname@) == spec_find_sym(
                            syms@.skip(i as int),
                            fnname@,
                        ),
                    decreases syms@.len() - i,
                {
                    let ghost rest = syms@.skip(i as int);
                    proof {
                        assert(rest[0] == syms@[i as int]);
                        assert(rest.skip(1) =~= syms@.skip(i + 1));
                    }
                    if crate::textutil::bytes_eq(&syms[i].name, fnname) {
                        return Ok(Some(syms[i].value));
                    }
                    i = i + 1;
                }
                proof {
                    assert(syms@.skip(syms@.len() as int) =~= Seq::<SymInfo>::empty());
                }
                Ok(None)
            },
            ObjKind::Malformed => Err(Error::ParseErr),
            _ => Err(Error::NotElf),
        }
    }

    /// The thunk table: the return thunk's address and the sixteen
    /// per-register indirect thunks with their addresses, looked up in the
    /// symbol table.
    #[verifier::spinoff_prover]
pub fn build_thunks(&self) -> (r: Result<(Option<u64>, Vec<crate::rules::Thunk>), Error>)
        ensures
            match r {
                Ok(p) => {
                    &&& obj_kind_of(self@) == ObjKind::Elf
                    &&& p.0 == spec_find_sym(elf_syms_of(self@), return_thunk_name())
                    &&& p.1@.len() == 16
                    &&& (forall|i: int|
                        0 <= i < 16 ==> (#[trigger] p.1@[i]).name@ == thunk_name_spec(i))
                    &&& (forall|i: int|
                        0 <= i < 16 ==> (#[trigger] p.1@[i]).addr == spec_find_sym(
                            elf_syms_of(self@),
                            thunk_name_spec(i),
                        ))
                },
                Err(_) => !(obj_kind_of(self@) == ObjKind::Elf),
            },
    {
        let rt_name = return_thunk_sym();
        let rt = match self.get_sym_addr(&rt_name) {
            Ok(rt) => rt,
            Err(e) => {
                return Err(e);
            },
        };
        let mut thunks: Vec<crate::rules::Thunk> = Vec::new();
        let mut i: usize = 0;
        while i < 16
            invariant
                0 <= i <= 16,
                thunks@.len() == i,
                forall|k: int| 0 <= k < i ==> (#[trigger] thunks@[k]).name@ == thunk_name_spec(k),
                forall|k: int|
                    0 <= k < i ==> (#[trigger] thunks@[k]).addr == spec_find_sym(
                        elf_syms_of(self@),
                        thunk_name_spec(k),
                    ),
                obj_kind_of(self@) == ObjKind::Elf,
            decreases 16 - i,
        {
            let name = thunk_name(i);
            let addr = match self.get_sym_addr(&name) {
                Ok(a) => a,
                Err(e) => {
                    return Err(e);
                },
            };
            thunks.push(crate::rules::Thunk { name, addr });
            i = i + 1;
        }
        Ok((rt, thunks))
    }

    /// The magic listing: for each of the eight fixed kernel symbols
    /// present, one `#define` line with its offset from `_text`.
    #[verifier::spinoff_prover]
pub fn magic_lines(&self) -> (r: Result<Vec<Vec<u8>>, Error>)
        ensures
            match r {
                Ok(lines) => {
                    &&& obj_kind_of(self@) == ObjKind::Elf
                    &&& {
                        let base = match spec_find_sym(elf_syms_of(self@), seq![95u8, 116, 101, 120, 116]) {
                            Some(b) => b,
                            None => 0,
                        };
                        let want = spec_magic_lines(elf_syms_of(self@), base, 0);
                        lines@.len() == want.len() && forall|k: int|
                            0 <= k < want.len() ==> (#[trigger] lines@[k])@ == want[k]
                    }
                },
                Err(_) => !(obj_kind_of(self@) == ObjKind::Elf),
            },
    {
        let mut tname: Vec<u8> = Vec::new();
        tname.push(95);
        tname.push(116);
        tname.push(101);
        tname.push(120);
        tname.push(116);
        proof {
            assert(tname@ =~= seq![95u8, 116, 101, 120, 116]);
        }
        let base = match self.get_sym_addr(&tname) {
            Ok(Some(b)) => b,
            Ok(None) => 0,
            Err(e) => {
                return Err(e);
            },
        };
        let ghost syms = elf_syms_of(self@);
        let mut lines: Vec<Vec<u8>> = Vec::new();
        let ghost want = spec_magic_lines(syms, base, 0);
        let mut i: usize = 0;
        proof {
            assert(want.subrange(0, 0) =~= Seq::<Seq<u8>>::empty());
        }
        let ghost done: Seq<Seq<u8>> = Seq::empty();
        let mut gi: Ghost<Seq<Seq<u8>>> = Ghost(Seq::empty());
        while i < 8
            invariant
                0 <= i <= 8,
                obj_kind_of(self@) == ObjKind::Elf,
                syms == elf_syms_of(self@),
                base == match spec_find_sym(syms, seq![95u8, 116, 101, 120, 116]) {
                    Some(b) => b,
                    None => 0u64,
                },
                lines@.len() == gi@.len(),
                forall|k: int| 0 <= k < gi@.len() ==> (#[trigger] lines@[k])@ == gi@[k],
                spec_magic_lines(syms, base, 0) == gi@ + spec_magic_lines(syms, base, i as int),
            decreases 8 - i,
        {
            let name = magic_name(i);
            match self.get_sym_addr(&name) {
                Ok(Some(addr)) => {
                    let mut line: Vec<u8> = Vec::new();
                    line.push(35);
                    line.push(100);
                    line.push(101);
                    line.push(102);
                    line.push(105);
                    line.push(110);
                    line.push(101);
                    line.push(32);
                    proof {
                        assert(line@ =~= define_prefix());
                    }
                    let up = crate::textutil::to_upper(&name);
                    crate::textutil::push_all(&mut line, &up);
                    let mut pad: usize = up.len();
                    while pad < 24
                        invariant
                            up@.len() <= pad <= 24 || (up@.len() >= 24 && pad == up@.len()),
                            up@.len() < 24 ==> line@ == define_prefix() + up@ + Seq::new(
                                (pad - up@.len()) as nat,
                                |q: int| 32u8,
                            ),
                            up@.len() >= 24 ==> line@ == define_prefix() + up@,
                        decreases 24 - pad,
                    {
                        line.push(32);
                        proof {
                            assert(define_prefix() + up@ + Seq::new(
                                (pad - up@.len()) as nat,
                                |q: int| 32u8,
                            ) + seq![32u8] =~= define_prefix() + up@ + Seq::new(
                                (pad + 1 - up@.len()) as nat,
                                |q: int| 32u8,
                            ));
                            if up@.len() >= 24 {
                                assert(false);
                            }
                        }
                        pad = pad + 1;
                    }
                    proof {
                        assert(up@.len() == name@.len());
                        assert(up@ =~= Seq::new(name@.len(), |q: int| crate::textutil::spec_upper(
                            name@[q],
                        )));
                        if up@.len() < 24 {
                            assert(line@ =~= define_prefix() + pad24(up@));
                        } else {
                            assert(pad24(up@) == up@);
                            assert(line@ =~= define_prefix() + pad24(up@));
                        }
                    }
                    line.push(32);
                    let hex = crate::textutil::fmt_hex(addr.wrapping_sub(base));
                    crate::textutil::push_all(&mut line, &hex);
                    proof {
                        assert(line@ =~= magic_line(name@, addr, base));
                    }
                    lines.push(line);
                    proof {
                        let ghost old_gi = gi@;
                        assert(spec_magic_lines(syms, base, i as int) == seq![magic_line(
                            magic_name_spec(i as int),
                            addr,
                            base,
                        )] + spec_magic_lines(syms, base, i + 1));
                    }
                    proof {
                        gi@ = gi@.push(line@);
                        assert(gi@ + spec_magic_lines(syms, base, i + 1) =~= gi@.drop_last()
                            + spec_magic_lines(syms, base, i as int));
                    }
                },
                Ok(None) => {
                    proof {
                        assert(spec_magic_lines(syms, base, i as int) == spec_magic_lines(
                            syms,
                            base,
                            i + 1,
                        ));
                    }
                },
                Err(e) => {
                    return Err(e);
                },
            }
            i = i + 1;
        }
        proof {
            assert(spec_magic_lines(syms, base, 8) =~= Seq::<Seq<u8>>::empty());
            assert(gi@ + Seq::<Seq<u8>>::empty() =~= gi@);
        }
        Ok(lines)
    }
}

/// The signed 32-bit value of four little-endian bytes.
pub open spec fn spec_i32_le(b: Seq<u8>, off: int) -> int {
    let u = b[off] + b[off + 1] * 0x100 + b[off + 2] * 0x10000 + b[off + 3] * 0x1000000;
    if u >= 0x8000_0000 {
        u - 0x1_0000_0000
    } else {
        u
    }
}

/// See [`spec_i32_le`].
fn read_i32_le(bytes: &Vec<u8>, off: usize) -> (r: i64)
    requires
        off + 4 <= bytes@.len(),
    ensures
        r == spec_i32_le(bytes@, off as int),
        -0x8000_0000 <= r < 0x8000_0000,
{
    let n = bytes.len();
    let b0 = bytes[off] as u64;
    let b1 = bytes[off + 1] as u64;
    let b2 = bytes[off + 2] as u64;
    let b3 = bytes[off + 3] as u64;
    let u: u64 = b0 + b1 * 0x100 + b2 * 0x10000 + b3 * 0x1000000;
    if u >= 0x8000_0000 {
        (u as i64) - 0x1_0000_0000
    } else {
        u as i64
    }
}

/// The absolute address a helper-section entry resolves to: the entry's
/// own address plus its signed self-relative offset, wrapping as the
/// machine does.
pub open spec fn resolve_site(sh_addr: u64, idx4: u64, e: i64) -> u64 {
    sh_addr.wrapping_add(idx4).wrapping_add_signed(e)
}

/// The resolved targets of a helper section whose contents start at file
/// offset `start`: entry `i` is a 32-bit signed self-relative offset at
/// `start + 4*i`.
pub open spec fn site_targets(b: Seq<u8>, start: int, n: int, sh_addr: u64) -> Seq<u64> {
    Seq::new(n as nat, |i: int| resolve_site(
        sh_addr,
        (4 * i) as u64,
        spec_i32_le(b, start + 4 * i) as i64,
    ))
}

/// See [`site_targets`].
fn read_targets(bytes: &Vec<u8>, start: usize, count: usize, sh_addr: u64) -> (r: Vec<u64>)
    requires
        start + 4 * count <= bytes@.len(),
    ensures
        r@ == site_targets(bytes@, start as int, count as int, sh_addr),
{
    let n = bytes.len();
    let mut r: Vec<u64> = Vec::new();
    let mut i: usize = 0;
    while i < count
        invariant
            0 <= i <= count,
            n == bytes@.len(),
            start + 4 * count <= bytes@.len(),
            r@.len() == i,
            forall|k: int|
                0 <= k < i ==> r@[k] == site_targets(bytes@, start as int, count as int, sh_addr)[k],
        decreases count - i,
    {
        let e = read_i32_le(bytes, start + 4 * i);
        let t = sh_addr.wrapping_add((4 * i) as u64).wrapping_add_signed(e);
        r.push(t);
        i = i + 1;
    }
    proof {
        assert(r@ =~= site_targets(bytes@, start as int, count as int, sh_addr));
    }
    r
}

/// Five bytes `c3 cc cc cc cc` written at `off`: a plain near return
/// followed by four int3 bytes.
pub open spec fn ret_write(b: Seq<u8>, off: int) -> Seq<u8> {
    Seq::new(b.len(), |k: int|
        if k == off {
            0xc3u8
        } else if off < k <= off + 4 {
            0xccu8
        } else {
            b[k]
        })
}

/// A return-site target is skipped when it lies before or past `.text`
/// (in a sibling section such as `.init.text`), or when the five bytes
/// would run past the file.
pub open spec fn ret_site_skipped(b: Seq<u8>, v: u64, ta: u64, ts: u64, tof: u64) -> bool {
    ||| v < ta
    ||| v - ta > ts
    ||| tof + (v - ta) + 5 > b.len()
}

/// The bytes after the return-site pass: each resolved target patched in
/// order, skipped ones left alone.
pub open spec fn apply_ret_sites(b: Seq<u8>, sites: Seq<u64>, ta: u64, ts: u64, tof: u64) -> Seq<u8>
    decreases sites.len(),
{
    if sites.len() == 0 {
        b
    } else {
        let v = sites[0];
        let b2 = if ret_site_skipped(b, v, ta, ts, tof) {
            b
        } else {
            ret_write(b, tof + (v - ta))
        };
        apply_ret_sites(b2, sites.skip(1), ta, ts, tof)
    }
}

/// The ModR/M byte of the rebuilt indirect instruction: `mod = 11`, the
/// opcode extension selecting CALL or JMP, and the register number.
pub open spec fn retp_modrm(call: bool, reg: int) -> u8 {
    (((if call {
        0x10int
    } else {
        0x20int
    }) + 0xc0 + reg) as u8)
}

/// The rebuilt indirect instruction written over a retpoline site: an
/// optional REX.B prefix, opcode `ff`, the ModR/M byte, and single-byte
/// NOPs preserving the original instruction length.
pub open spec fn retp_write(b: Seq<u8>, off: int, call: bool, reg: int, ilen: int) -> Seq<u8> {
    Seq::new(b.len(), |k: int|
        if k < off || k >= off + ilen {
            b[k]
        } else if reg >= 8 {
            if k == off {
                0x41u8
            } else if k == off + 1 {
                0xffu8
            } else if k == off + 2 {
                retp_modrm(call, reg - 8)
            } else {
                0x90u8
            }
        } else {
            if k == off {
                0xffu8
            } else if k == off + 1 {
                retp_modrm(call, reg)
            } else {
                0x90u8
            }
        })
}

/// One retpoline site. A site outside `.text` or past the file is skipped.
/// A site that does not decode to a direct CALL/JMP rel32, or whose branch
/// target does not select one of the sixteen thunk-array entries, or
/// selects RSP, or is too short to rewrite, is fatal (`None`).
pub open spec fn retp_site(b: Seq<u8>, v: u64, ta: u64, ts: u64, tof: u64, thunk: u64) -> Option<
    Seq<u8>,
> {
    if v < ta || v - ta > ts || tof + (v - ta) >= b.len() {
        Some(b)
    } else {
        let off = tof + (v - ta);
        let i = crate::insn::decoded(b, true, v, off);
        if i.code != crate::insn::C_CALL_REL32_64 && i.code != crate::insn::C_JMP_REL32_64 {
            None
        } else if i.target < thunk {
            None
        } else {
            let reg = (i.target - thunk) / 32;
            if reg > 15 || reg == 4 {
                None
            } else {
                let need: int = if reg >= 8 {
                    3
                } else {
                    2
                };
                if i.len < need || off + i.len > b.len() {
                    None
                } else {
                    Some(retp_write(b, off, i.code == crate::insn::C_CALL_REL32_64, reg, i.len as int))
                }
            }
        }
    }
}

/// The bytes after the retpoline pass, or `None` on the first fatal site.
pub open spec fn apply_retp_sites(
    b: Seq<u8>,
    sites: Seq<u64>,
    ta: u64,
    ts: u64,
    tof: u64,
    thunk: u64,
) -> Option<Seq<u8>>
    decreases sites.len(),
{
    if sites.len() == 0 {
        Some(b)
    } else {
        match retp_site(b, sites[0], ta, ts, tof, thunk) {
            None => None,
            Some(b2) => apply_retp_sites(b2, sites.skip(1), ta, ts, tof, thunk),
        }
    }
}

/// The helper section is sound to read: whole 4-byte entries, inside the
/// file.
pub open spec fn helper_section_ok(b: Seq<u8>, h: ShdrInfo) -> bool {
    h.size % 4 == 0 && h.offset + h.size <= b.len()
}

impl Binary {
    /// Format the single instruction at `offset` of the image bytes in
    /// canonical Intel syntax.
    pub fn format_instruction(&self, bit64: bool, ip: u64, offset: usize) -> (r: Vec<u8>)
        requires
            offset < self@.len(),
        ensures
            r@ == crate::insn::formatted(self@, bit64, ip, offset as int),
    {
        crate::insn::format_insn(&self.bytes, bit64, ip, offset)
    }

    /// Rewrite every `.return_sites` target inside `.text` back into a
    /// plain `ret` (`c3` followed by four `cc`), undoing the compiler's
    /// `jmp __x86_return_thunk`. `Ok(false)`: nothing to do (not an ELF,
    /// or no `.return_sites`).
    #[verifier::spinoff_prover]
pub fn apply_returnsites(&mut self) -> (r: Result<bool, Error>)
        ensures
            final(self).spec_path() == old(self).spec_path(),
            match r {
                Ok(ran) => {
                    let b0 = old(self)@;
                    let shdrs = elf_shdrs_of(b0);
                    let hs = find_named(shdrs, return_sites_name());
                    if !ran {
                        final(self)@ == b0 && (!(obj_kind_of(b0) == ObjKind::Elf) || hs == -1)
                    } else {
                        &&& obj_kind_of(b0) == ObjKind::Elf
                        &&& hs >= 0
                        &&& helper_section_ok(b0, shdrs[hs])
                        &&& {
                            let ht = find_named(shdrs, text_name());
                            if ht >= 0 {
                                final(self)@ == apply_ret_sites(
                                    b0,
                                    site_targets(
                                        b0,
                                        shdrs[hs].offset as int,
                                        shdrs[hs].size as int / 4,
                                        shdrs[hs].addr,
                                    ),
                                    shdrs[ht].addr,
                                    shdrs[ht].size,
                                    shdrs[ht].offset,
                                )
                            } else {
                                final(self)@ == b0
                            }
                        }
                    }
                },
                Err(e) => {
                    let b0 = old(self)@;
                    let shdrs = elf_shdrs_of(b0);
                    let hs = find_named(shdrs, return_sites_name());
                    &&& e == Error::ParseErr
                    &&& final(self)@ == b0
                    &&& (obj_kind_of(b0) == ObjKind::Malformed || (obj_kind_of(b0) == ObjKind::Elf
                        && hs >= 0 && !helper_section_ok(b0, shdrs[hs])))
                },
            },
    {
        let ghost b0 = self@;
        match parse_kind(&self.bytes) {
            ObjKind::Malformed => {
                return Err(Error::ParseErr);
            },
            ObjKind::Elf => {},
            _ => {
                return Ok(false);
            },
        }
        let shdrs = elf_shdrs(&self.bytes);
        let mut rsname: Vec<u8> = Vec::new();
        rsname.push(46);
        rsname.push(114);
        rsname.push(101);
        rsname.push(116);
        rsname.push(117);
        rsname.push(114);
        rsname.push(110);
        rsname.push(95);
        rsname.push(115);
        rsname.push(105);
        rsname.push(116);
        rsname.push(101);
        rsname.push(115);
        proof {
            assert(rsname@ =~= return_sites_name());
        }
        let hidx = match find_shdr(&shdrs, &rsname) {
            Some(i) => i,
            None => {
                return Ok(false);
            },
        };
        let h_offset = shdrs[hidx].offset;
        let h_size = shdrs[hidx].size;
        let h_addr = shdrs[hidx].addr;
        if h_size % 4 != 0 {
            return Err(Error::ParseErr);
        }
        let lhs: u128 = (h_offset as u128) + (h_size as u128);
        if lhs > (self.bytes.len() as u128) {
            return Err(Error::ParseErr);
        }
        let count = (h_size / 4) as usize;
        let targets = read_targets(&self.bytes, h_offset as usize, count, h_addr);
        let mut tname: Vec<u8> = Vec::new();
        tname.push(46);
        tname.push(116);
        tname.push(101);
        tname.push(120);
        tname.push(116);
        proof {
            assert(tname@ =~= text_name());
        }
        let tidx = match find_shdr(&shdrs, &tname) {
            Some(i) => i,
            None => {
                return Ok(true);
            },
        };
        let ta = shdrs[tidx].addr;
        let ts = shdrs[tidx].size;
        let tof = shdrs[tidx].offset;
        let n = self.bytes.len();
        let mut i: usize = 0;
        proof {
            assert(targets@.skip(0) =~= targets@);
        }
        while i < targets.len()
            invariant
                0 <= i <= targets@.len(),
                self@.len() == b0.len(),
                n == b0.len(),
                self.spec_path() == old(self).spec_path(),
                apply_ret_sites(b0, targets@, ta, ts, tof) == apply_ret_sites(
                    self@,
                    targets@.skip(i as int),
                    ta,
                    ts,
                    tof,
                ),
            decreases targets@.len() - i,
        {
            let ghost cur = self@;
            let ghost rest = targets@.skip(i as int);
            proof {
                assert(rest[0] == targets@[i as int]);
                assert(rest.skip(1) =~= targets@.skip(i + 1));
            }
            let v = targets[i];
            let skipped = if v < ta {
                true
            } else {
                let d = v - ta;
                if d > ts {
                    true
                } else {
                    let need: u128 = (tof as u128) + (d as u128) + 5;
                    need > (n as u128)
                }
            };
            proof {
                assert(skipped == ret_site_skipped(self@, v, ta, ts, tof));
            }
            if !skipped {
                let off = (tof + (v - ta)) as usize;
                self.bytes.set(off, 0xc3);
                self.bytes.set(off + 1, 0xcc);
                self.bytes.set(off + 2, 0xcc);
                self.bytes.set(off + 3, 0xcc);
                self.bytes.set(off + 4, 0xcc);
                proof {
                    assert(self@ =~= ret_write(cur, off as int));
                }
            }
            i = i + 1;
        }
        proof {
            assert(targets@.skip(targets@.len() as int) =~= Seq::<u64>::empty());
        }
        Ok(true)
    }

    /// Rewrite every `.retpoline_sites` target inside `.text` back into
    /// the original indirect `call`/`jmp` through the register its thunk
    /// encodes, padding with NOPs. `Ok(false)`: nothing to do. A site that
    /// is not a direct CALL/JMP into the thunk array, or that selects RSP,
    /// is fatal.
    #[verifier::spinoff_prover]
pub fn patch_retpolines(&mut self, thunk_array_addr: u64) -> (r: Result<bool, Error>)
        ensures
            final(self).spec_path() == old(self).spec_path(),
            match r {
                Ok(ran) => {
                    let b0 = old(self)@;
                    let shdrs = elf_shdrs_of(b0);
                    let hs = find_named(shdrs, retpoline_sites_name());
                    if !ran {
                        final(self)@ == b0 && (!(obj_kind_of(b0) == ObjKind::Elf) || hs == -1)
                    } else {
                        &&& obj_kind_of(b0) == ObjKind::Elf
                        &&& hs >= 0
                        &&& helper_section_ok(b0, shdrs[hs])
                        &&& {
                            let ht = find_named(shdrs, text_name());
                            if ht >= 0 {
                                apply_retp_sites(
                                    b0,
                                    site_targets(
                                        b0,
                                        shdrs[hs].offset as int,
                                        shdrs[hs].size as int / 4,
                                        shdrs[hs].addr,
                                    ),
                                    shdrs[ht].addr,
                                    shdrs[ht].size,
                                    shdrs[ht].offset,
                                    thunk_array_addr,
                                ) == Some(final(self)@)
                            } else {
                                final(self)@ == b0
                            }
                        }
                    }
                },
                Err(Error::ParseErr) => {
                    let b0 = old(self)@;
                    let shdrs = elf_shdrs_of(b0);
                    let hs = find_named(shdrs, retpoline_sites_name());
                    &&& final(self)@ == b0
                    &&& (obj_kind_of(b0) == ObjKind::Malformed || (obj_kind_of(b0) == ObjKind::Elf
                        && hs >= 0 && !helper_section_ok(b0, shdrs[hs])))
                },
                Err(Error::PatchErr) => {
                    let b0 = old(self)@;
                    let shdrs = elf_shdrs_of(b0);
                    let hs = find_named(shdrs, retpoline_sites_name());
                    let ht = find_named(shdrs, text_name());
                    &&& obj_kind_of(b0) == ObjKind::Elf
                    &&& hs >= 0
                    &&& helper_section_ok(b0, shdrs[hs])
                    &&& ht >= 0
                    &&& apply_retp_sites(
                        b0,
                        site_targets(
                            b0,
                            shdrs[hs].offset as int,
                            shdrs[hs].size as int / 4,
                            shdrs[hs].addr,
                        ),
                        shdrs[ht].addr,
                        shdrs[ht].size,
                        shdrs[ht].offset,
                        thunk_array_addr,
                    ) is None
                },
                Err(_) => false,
            },
    {
        let ghost b0 = self@;
        match parse_kind(&self.bytes) {
            ObjKind::Malformed => {
                return Err(Error::ParseErr);
            },
            ObjKind::Elf => {},
            _ => {
                return Ok(false);
            },
        }
        let shdrs = elf_shdrs(&self.bytes);
        let mut rsname: Vec<u8> = Vec::new();
        rsname.push(46);
        rsname.push(114);
        rsname.push(101);
        rsname.push(116);
        rsname.push(112);
        rsname.push(111);
        rsname.push(108);
        rsname.push(105);
        rsname.push(110);
        rsname.push(101);
        rsname.push(95);
        rsname.push(115);
        rsname.push(105);
        rsname.push(116);
        rsname.push(101);
        rsname.push(115);
        proof {
            assert(rsname@ =~= retpoline_sites_name());
        }
        let hidx = match find_shdr(&shdrs, &rsname) {
            Some(i) => i,
            None => {
                return Ok(false);
            },
        };
        let h_offset = shdrs[hidx].offset;
        let h_size = shdrs[hidx].size;
        let h_addr = shdrs[hidx].addr;
        if h_size % 4 != 0 {
            return Err(Error::ParseErr);
        }
        let lhs: u128 = (h_offset as u128) + (h_size as u128);
        if lhs > (self.bytes.len() as u128) {
            return Err(Error::ParseErr);
        }
        let count = (h_size / 4) as usize;
        let targets = read_targets(&self.bytes, h_offset as usize, count, h_addr);
        let mut tname: Vec<u8> = Vec::new();
        tname.push(46);
        tname.push(116);
        tname.push(101);
        tname.push(120);
        tname.push(116);
        proof {
            assert(tname@ =~= text_name());
        }
        let tidx = match find_shdr(&shdrs, &tname) {
            Some(i) => i,
            None => {
                return Ok(true);
            },
        };
        let ta = shdrs[tidx].addr;
        let ts = shdrs[tidx].size;
        let tof = shdrs[tidx].offset;
        let n = self.bytes.len();
        let thunk = thunk_array_addr;
        let mut i: usize = 0;
        proof {
            assert(targets@.skip(0) =~= targets@);
        }
        while i < targets.len()
            invariant
                0 <= i <= targets@.len(),
                self@.len() == b0.len(),
                n == b0.len(),
                b0 == old(self)@,
                self.spec_path() == old(self).spec_path(),
                thunk == thunk_array_addr,
                obj_kind_of(b0) == ObjKind::Elf,
                shdrs@ == elf_shdrs_of(b0),
                0 <= find_named(shdrs@, retpoline_sites_name()) < shdrs@.len(),
                helper_section_ok(b0, shdrs@[find_named(shdrs@, retpoline_sites_name())]),
                0 <= find_named(shdrs@, text_name()) < shdrs@.len(),
                ta == shdrs@[find_named(shdrs@, text_name())].addr,
                ts == shdrs@[find_named(shdrs@, text_name())].size,
                tof == shdrs@[find_named(shdrs@, text_name())].offset,
                targets@ == site_targets(
                    b0,
                    shdrs@[find_named(shdrs@, retpoline_sites_name())].offset as int,
                    shdrs@[find_named(shdrs@, retpoline_sites_name())].size as int / 4,
                    shdrs@[find_named(shdrs@, retpoline_sites_name())].addr,
                ),
                apply_retp_sites(b0, targets@, ta, ts, tof, thunk) == apply_retp_sites(
                    self@,
                    targets@.skip(i as int),
                    ta,
                    ts,
                    tof,
                    thunk,
                ),
            decreases targets@.len() - i,
        {
            let ghost cur = self@;
            let ghost rest = targets@.skip(i as int);
            proof {
                assert(rest[0] == targets@[i as int]);
                assert(rest.skip(1) =~= targets@.skip(i + 1));
            }
            let v = targets[i];
            let skipped = if v < ta {
                true
            } else {
                let d = v - ta;
                if d > ts {
                    true
                } else {
                    let pos: u128 = (tof as u128) + (d as u128);
                    pos >= (n as u128)
                }
            };
            if !skipped {
                let off = (tof + (v - ta)) as usize;
                let insn = crate::insn::decode_insn(&self.bytes, true, v, off);
                if insn.code != crate::insn::C_CALL_REL32_64 && insn.code
                    != crate::insn::C_JMP_REL32_64 {
                    proof {
                        assert(retp_site(cur, v, ta, ts, tof, thunk) is None);
                    }
                    return Err(Error::PatchErr);
                }
                if insn.target < thunk {
                    proof {
                        assert(retp_site(cur, v, ta, ts, tof, thunk) is None);
                    }
                    return Err(Error::PatchErr);
                }
                let reg = (insn.target - thunk) / 32;
                if reg > 15 || reg == 4 {
                    proof {
                        assert(retp_site(cur, v, ta, ts, tof, thunk) is None);
                    }
                    return Err(Error::PatchErr);
                }
                let call = insn.code == crate::insn::C_CALL_REL32_64;
                let base_ext: u8 = if call {
                    0x10
                } else {
                    0x20
                };
                let mut fixedlen: usize = 2;
                if reg >= 8 {
                    if insn.len < 3 {
                        proof {
                            assert(retp_site(cur, v, ta, ts, tof, thunk) is None);
                        }
                        return Err(Error::PatchErr);
                    }
                    self.bytes.set(off, 0x41);
                    self.bytes.set(off + 1, 0xff);
                    self.bytes.set(off + 2, base_ext + 0xc0 + ((reg - 8) as u8));
                    fixedlen = 3;
                } else {
                    if insn.len < 2 {
                        proof {
                            assert(retp_site(cur, v, ta, ts, tof, thunk) is None);
                        }
                        return Err(Error::PatchErr);
                    }
                    self.bytes.set(off, 0xff);
                    self.bytes.set(off + 1, base_ext + 0xc0 + (reg as u8));
                }
                let mut k: usize = fixedlen;
                while k < insn.len
                    invariant
                        fixedlen <= k <= insn.len,
                        off + insn.len <= self@.len(),
                        self@.len() == n,
                        self@.len() == cur.len(),
                        forall|q: int|
                            0 <= q < self@.len() && !(off <= q < off + k) ==> self@[q] == cur[q],
                        forall|q: int| off + fixedlen <= q < off + k ==> self@[q] == 0x90u8,
                        fixedlen == 3 ==> self@[off as int] == 0x41 && self@[off + 1] == 0xff
                            && self@[off + 2] == base_ext + 0xc0 + (reg - 8) as u8,
                        fixedlen == 2 ==> self@[off as int] == 0xff && self@[off + 1] == base_ext
                            + 0xc0 + reg as u8,
                        self.spec_path() == old(self).spec_path(),
                    decreases insn.len - k,
                {
                    self.bytes.set(off + k, 0x90);
                    k = k + 1;
                }
                proof {
                    assert(self@ =~= retp_write(cur, off as int, call, reg as int, insn.len as int));
                    assert(retp_site(cur, v, ta, ts, tof, thunk) == Some(self@));
                }
            }
            i = i + 1;
        }
        proof {
            assert(targets@.skip(targets@.len() as int) =~= Seq::<u64>::empty());
        }
        Ok(true)
    }
}

} // verus!
