use ropr::binary::Binary;
use ropr::pipeline::process_gadgets;
use ropr::rules::Thunk;
use ropr::scan::scan_region;

fn scan_raw_with(
    bytes: Vec<u8>,
    noisy: bool,
    max_instr: usize,
    base_pivot: bool,
    trim_nops: bool,
) -> Vec<(u64, String)> {
    let bin = Binary::new(String::from("blob"), bytes);
    let secs = bin.sections(Some(true)).unwrap();
    let thunks: Vec<Thunk> = Vec::new();
    let gads = scan_region(&secs[0], true, true, true, noisy, None, &thunks, max_instr);
    let pos: Vec<ropr::pipeline::Matcher> = Vec::new();
    let neg: Vec<ropr::pipeline::Matcher> = Vec::new();
    let ranges: Vec<(u64, u64)> = Vec::new();
    let out = process_gadgets(
        gads, &ranges, &pos, &neg, false, base_pivot, trim_nops, true, false, None,
    );
    out.iter()
        .map(|g| (g.addr, String::from_utf8(g.text.clone()).unwrap()))
        .collect()
}

fn scan_raw(bytes: Vec<u8>) -> Vec<(u64, String)> {
    scan_raw_with(bytes, false, 6, false, true)
}

#[test]
fn pop_rax_ret_two_gadgets() {
    let r = scan_raw(vec![0x58, 0xc3]);
    assert_eq!(r.len(), 2);
    assert_eq!(r[0], (0, String::from("pop rax; ret;")));
    assert_eq!(r[1], (1, String::from("ret;")));
}

#[test]
fn trim_nops_drops_nop_headed() {
    let r = scan_raw(vec![0x5d, 0xc3, 0x90, 0x90]);
    assert_eq!(r.len(), 2);
    assert_eq!(r[0], (0, String::from("pop rbp; ret;")));
    assert_eq!(r[1], (1, String::from("ret;")));
    assert!(r.iter().all(|(a, _)| *a != 2 && *a != 3));
}

#[test]
fn nops_kept_without_trim() {
    let r = scan_raw_with(vec![0x5d, 0xc3, 0x90, 0x90], false, 6, false, false);
    assert_eq!(r.len(), 2);
}

#[test]
fn base_pivot_filter() {
    let r = scan_raw_with(vec![0x48, 0x89, 0xe5, 0xc3], false, 6, true, true);
    // the plain return at offset 3 is filtered out; what survives pivots
    // the base pointer, led by the full-width move at offset 0 (the
    // overlapping decode at offset 1 moves esp into ebp and pivots too)
    assert_eq!(r[0], (0, String::from("mov rbp, rsp; ret;")));
    assert_eq!(r[1], (1, String::from("mov ebp, esp; ret;")));
    assert_eq!(r.len(), 2);
    assert!(r.iter().all(|(a, _)| *a != 3));
}

#[test]
fn jop_tail_jmp_rax() {
    let r = scan_raw(vec![0xff, 0xe0]);
    assert_eq!(r.len(), 1);
    assert_eq!(r[0], (0, String::from("jmp rax;")));
}

#[test]
fn direct_relative_call_yields_nothing() {
    let r = scan_raw(vec![0xe8, 0x00, 0x00, 0x00, 0x00]);
    assert_eq!(r.len(), 0);
}

fn push_u16(v: &mut Vec<u8>, x: u16) {
    v.extend_from_slice(&x.to_le_bytes());
}
fn push_u32(v: &mut Vec<u8>, x: u32) {
    v.extend_from_slice(&x.to_le_bytes());
}
fn push_u64(v: &mut Vec<u8>, x: u64) {
    v.extend_from_slice(&x.to_le_bytes());
}

fn shdr(v: &mut Vec<u8>, name: u32, ty: u32, flags: u64, addr: u64, off: u64, size: u64) {
    push_u32(v, name);
    push_u32(v, ty);
    push_u64(v, flags);
    push_u64(v, addr);
    push_u64(v, off);
    push_u64(v, size);
    push_u32(v, 0);
    push_u32(v, 0);
    push_u64(v, 8);
    push_u64(v, 0);
}

/// A minimal ELF64 with `.text` at VA 0x1000 (file offset 64, 16 bytes),
/// a 4-byte helper section at VA 0x3000 (file offset 80) named `helper`,
/// and `.shstrtab`. The helper entry resolves to VA 0x1000.
fn mini_elf(text_bytes: &[u8], helper_name: &str) -> Vec<u8> {
    assert!(text_bytes.len() <= 16);
    let mut v: Vec<u8> = Vec::new();
    // ELF header
    v.extend_from_slice(&[0x7f, 0x45, 0x4c, 0x46, 0x02, 0x01, 0x01, 0x00]);
    v.extend_from_slice(&[0u8; 8]);
    push_u16(&mut v, 2); // ET_EXEC
    push_u16(&mut v, 0x3e); // EM_X86_64
    push_u32(&mut v, 1);
    push_u64(&mut v, 0); // entry
    push_u64(&mut v, 0); // phoff
    push_u64(&mut v, 136); // shoff
    push_u32(&mut v, 0);
    push_u16(&mut v, 64);
    push_u16(&mut v, 56);
    push_u16(&mut v, 0);
    push_u16(&mut v, 64);
    push_u16(&mut v, 4);
    push_u16(&mut v, 3); // shstrndx
    assert_eq!(v.len(), 64);
    // .text data at 64
    v.extend_from_slice(text_bytes);
    v.resize(80, 0x90);
    // helper data at 80: one entry, self-relative to VA 0x3000, target 0x1000
    push_u32(&mut v, (-0x2000i32) as u32);
    assert_eq!(v.len(), 84);
    // shstrtab at 84: "\0.text\0<helper>\0.shstrtab\0"
    let mut strtab: Vec<u8> = vec![0];
    let text_name_off = strtab.len() as u32;
    strtab.extend_from_slice(b".text");
    strtab.push(0);
    let helper_off = strtab.len() as u32;
    strtab.extend_from_slice(helper_name.as_bytes());
    strtab.push(0);
    let shstr_off = strtab.len() as u32;
    strtab.extend_from_slice(b".shstrtab");
    strtab.push(0);
    let strtab_len = strtab.len() as u64;
    v.extend_from_slice(&strtab);
    v.resize(136, 0);
    // section headers at 136
    shdr(&mut v, 0, 0, 0, 0, 0, 0);
    shdr(&mut v, text_name_off, 1, 6, 0x1000, 64, 16);
    shdr(&mut v, helper_off, 1, 0, 0x3000, 80, 4);
    shdr(&mut v, shstr_off, 3, 0, 0, 84, strtab_len);
    v
}

#[test]
fn retpoline_patch_rebuilds_jmp_rbx() {
    // jmp rel32 at VA 0x1000 targeting thunk_array + 96 (register 3, rbx)
    let thunk_array: u64 = 0x2000;
    let rel: i32 = (thunk_array as i64 + 96 - (0x1000 + 5)) as i32;
    let mut text = vec![0xe9u8];
    text.extend_from_slice(&rel.to_le_bytes());
    let elf = mini_elf(&text, ".retpoline_sites");
    let mut bin = Binary::new(String::from("mini"), elf);
    let ran = bin.patch_retpolines(thunk_array).unwrap();
    assert!(ran);
    assert_eq!(&bin.bytes_ref()[64..69], &[0xff, 0xe3, 0x90, 0x90, 0x90]);
    // scanning the patched .text yields the indirect jump gadget
    let secs = bin.sections(None).unwrap();
    assert_eq!(secs.len(), 1);
    let thunks: Vec<Thunk> = Vec::new();
    let gads = scan_region(&secs[0], true, true, true, false, None, &thunks, 6);
    let texts: Vec<(u64, String)> = gads
        .iter()
        .map(|g| (g.addr, String::from_utf8(g.text.clone()).unwrap()))
        .collect();
    assert!(texts.contains(&(0x1000, String::from("jmp rbx;"))));
}

#[test]
fn returnsite_patch_writes_ret_int3() {
    // five NOPs at the site; the patch overwrites them with c3 cc cc cc cc
    let text = vec![0x90u8; 16];
    let elf = mini_elf(&text, ".return_sites");
    let mut bin = Binary::new(String::from("mini"), elf);
    let ran = bin.apply_returnsites().unwrap();
    assert!(ran);
    assert_eq!(&bin.bytes_ref()[64..69], &[0xc3, 0xcc, 0xcc, 0xcc, 0xcc]);
}

#[test]
fn returnsite_patch_skipped_without_section() {
    let text = vec![0x90u8; 16];
    let elf = mini_elf(&text, ".other_sites");
    let mut bin = Binary::new(String::from("mini"), elf);
    let ran = bin.apply_returnsites().unwrap();
    assert!(!ran);
}

#[test]
fn malformed_blob_patch_errors() {
    let mut bin = Binary::new(String::from("blob"), vec![0x58, 0xc3]);
    // too small to classify: a parse error, as a malformed object is
    assert!(bin.apply_returnsites().is_err());
}
