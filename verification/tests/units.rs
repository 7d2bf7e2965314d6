use ropr::binary::Binary;
use ropr::error::Error;
use ropr::gadget::{redecode_text, Gadget};
use ropr::insn::{
    Insn, FC_CALL, FC_NEXT, M_CALL, M_JMP, M_LEAVE, M_POP, M_RET, OK_MEMORY, OK_NEAR_BRANCH64,
    OK_REGISTER, R_EBP, R_NONE, R_RIP, R_RSP,
};
use ropr::pipeline::{compile_matchers, dedup_gadgets, parse_ranges, sort_gadgets, Matcher};
use ropr::render::{render_gadgets, symbolize};
use ropr::rules::{
    is_gadget_tail, is_jop, is_ret, is_rop_gadget_head, is_stack_pivot_head, is_sys,
    is_target_thunk, Thunk,
};
use ropr::scan::scan_region;
use ropr::textutil::{bytes_le, fmt_hex, fmt_hex_padded, replace_all};

fn insn(mnemonic: u16, flow: u16) -> Insn {
    Insn {
        len: 1,
        code: 1,
        mnemonic,
        flow,
        op0_kind: OK_REGISTER,
        op0_reg: 0,
        op1_kind: OK_REGISTER,
        op1_reg: 0,
        mem_base: R_NONE,
        target: 0,
        lock_prefix: false,
        rep_prefix: false,
        repe_prefix: false,
        repne_prefix: false,
        xacquire_prefix: false,
        xrelease_prefix: false,
    }
}

#[test]
fn ret_and_thunk_jump_are_rets() {
    let ret = insn(M_RET, 4);
    assert!(is_ret(&ret, None));
    let mut jt = insn(M_JMP, 1);
    jt.op0_kind = OK_NEAR_BRANCH64;
    jt.target = 0x5000;
    assert!(!is_ret(&jt, None));
    assert!(is_ret(&jt, Some(0x5000)));
    assert!(!is_ret(&jt, Some(0x6000)));
}

#[test]
fn jop_rules() {
    let mut j = insn(M_JMP, 2);
    j.op0_kind = OK_REGISTER;
    assert!(is_jop(&j, false));
    j.op0_kind = OK_MEMORY;
    j.mem_base = R_RIP;
    assert!(!is_jop(&j, false));
    assert!(is_jop(&j, true));
    let mut c = insn(M_CALL, 5);
    c.op0_kind = OK_NEAR_BRANCH64;
    assert!(!is_jop(&c, false));
}

#[test]
fn tail_families_toggle() {
    let ret = insn(M_RET, 4);
    let none: Vec<Thunk> = Vec::new();
    assert!(is_gadget_tail(&ret, true, true, true, false, None, &none));
    assert!(!is_gadget_tail(&ret, false, true, true, false, None, &none));
    let mut jt = insn(M_JMP, 1);
    jt.op0_kind = OK_NEAR_BRANCH64;
    jt.target = 0x7000;
    let thunks = vec![Thunk { name: b"__x86_indirect_thunk_rax".to_vec(), addr: Some(0x7000) }];
    assert!(is_gadget_tail(&jt, true, false, false, false, None, &thunks));
    assert!(!is_gadget_tail(&jt, true, false, false, false, None, &none));
}

#[test]
fn target_thunk_excludes_return_thunk() {
    // a jump to an indirect thunk is a target thunk; a jump to the return
    // thunk is a ret, not a target thunk
    let mut jt = insn(M_JMP, 1);
    jt.op0_kind = OK_NEAR_BRANCH64;
    jt.target = 0x7000;
    let thunks = vec![Thunk { name: b"__x86_indirect_thunk_rax".to_vec(), addr: Some(0x7000) }];
    assert!(is_target_thunk(&jt, &thunks));
    let none: Vec<Thunk> = Vec::new();
    jt.target = 0x5000;
    assert!(!is_target_thunk(&jt, &none));
    assert!(is_ret(&jt, Some(0x5000)));
    // the tail classifier still admits the return-thunk jump, through is_ret
    assert!(is_gadget_tail(&jt, true, false, false, false, Some(0x5000), &none));
}

#[test]
fn head_rules() {
    let mut add = insn(7, FC_NEXT);
    assert!(is_rop_gadget_head(&add, false));
    add.lock_prefix = true;
    assert!(!is_rop_gadget_head(&add, false));
    assert!(is_rop_gadget_head(&add, true));
    let call = insn(M_CALL, FC_CALL);
    assert!(!is_rop_gadget_head(&call, false));
    let syscall = insn(1000, FC_CALL);
    assert!(is_rop_gadget_head(&syscall, false));
}

#[test]
fn pivot_heads() {
    let mut p = insn(M_POP, FC_NEXT);
    p.op0_reg = R_RSP;
    assert!(is_stack_pivot_head(&p));
    p.op0_reg = R_EBP;
    assert!(!is_stack_pivot_head(&p));
    let l = insn(M_LEAVE, FC_NEXT);
    assert!(is_stack_pivot_head(&l));
}

#[test]
fn sys_rule() {
    assert!(is_sys(&insn(296, 4)));
    assert!(!is_sys(&insn(M_RET, 4)));
}

#[test]
fn hex_formatting() {
    assert_eq!(fmt_hex(0), b"0x0".to_vec());
    assert_eq!(fmt_hex(0x1a2b), b"0x1a2b".to_vec());
    assert_eq!(fmt_hex_padded(0x1234), b"0x00001234".to_vec());
    assert_eq!(fmt_hex_padded(0x123456789), b"0x123456789".to_vec());
}

#[test]
fn range_parsing() {
    let args = vec![
        b"0x10-0x20".to_vec(),
        b"10-20".to_vec(),
        b"zz-10".to_vec(),
        b"40".to_vec(),
    ];
    let r = parse_ranges(&args);
    assert_eq!(r, vec![(0x10, 0x20), (0x10, 0x20)]);
}

#[test]
fn byte_replace_and_order() {
    let s = b"abcabc".to_vec();
    let out = replace_all(&s, &b"bc".to_vec(), &b"x".to_vec());
    assert_eq!(out, b"axax".to_vec());
    assert!(bytes_le(&b"ab".to_vec(), &b"abc".to_vec()));
    assert!(bytes_le(&b"abc".to_vec(), &b"abd".to_vec()));
    assert!(!bytes_le(&b"abd".to_vec(), &b"abc".to_vec()));
}

fn fake_gadget(addr: u64, text: &[u8]) -> Gadget {
    Gadget {
        offs: vec![0],
        insns: vec![insn(M_RET, 4)],
        addr,
        text: text.to_vec(),
    }
}

#[test]
fn dedup_keeps_lowest_address() {
    let gs = vec![
        fake_gadget(5, b"ret;"),
        fake_gadget(2, b"ret;"),
        fake_gadget(9, b"pop rax; ret;"),
        fake_gadget(7, b"ret;"),
    ];
    let r = dedup_gadgets(gs);
    assert_eq!(r.len(), 2);
    let ret_addr = r.iter().find(|g| g.text == b"ret;").unwrap().addr;
    assert_eq!(ret_addr, 2);
}

#[test]
fn sorting_by_address_and_text() {
    let gs = vec![
        fake_gadget(9, b"b;"),
        fake_gadget(2, b"c;"),
        fake_gadget(7, b"a;"),
    ];
    let by_addr = sort_gadgets(gs, false);
    let addrs: Vec<u64> = by_addr.iter().map(|g| g.addr).collect();
    assert_eq!(addrs, vec![2, 7, 9]);
    let by_text = sort_gadgets(by_addr, true);
    let texts: Vec<Vec<u8>> = by_text.iter().map(|g| g.text.clone()).collect();
    assert_eq!(texts, vec![b"a;".to_vec(), b"b;".to_vec(), b"c;".to_vec()]);
}

#[test]
fn regex_matchers() {
    assert!(Matcher::new("(").is_none());
    let m = Matcher::new("pop r[a-d]x").unwrap();
    assert!(m.is_match(&b"pop rax; ret;".to_vec()));
    assert!(!m.is_match(&b"pop rsi; ret;".to_vec()));
    let r = compile_matchers(&vec![String::from("a"), String::from("(")]);
    assert_eq!(r.err(), Some(1));
}

#[test]
fn symbolization_lines() {
    let thunks = vec![Thunk {
        name: b"__x86_indirect_thunk_rax".to_vec(),
        addr: Some(0x2000),
    }];
    let out = symbolize(&b"jmp 0x2000;".to_vec(), None, &thunks);
    assert_eq!(out, b"jmp 0x2000 <__x86_indirect_thunk_rax>;".to_vec());
    let out2 = symbolize(&b"jmp 0x5000;".to_vec(), Some(0x5000), &Vec::new());
    assert_eq!(out2, b"jmp 0x5000 <__x86_return_thunk>;".to_vec());
    let lines = render_gadgets(&vec![fake_gadget(0x10, b"ret;")], None, &Vec::new());
    assert_eq!(lines[0], b"0x00000010: ret;".to_vec());
}

#[test]
fn redecode_reproduces_text() {
    let bin = Binary::new(String::from("blob"), vec![0x58, 0xc3]);
    let secs = bin.sections(Some(true)).unwrap();
    let thunks: Vec<Thunk> = Vec::new();
    let gads = scan_region(&secs[0], true, true, true, false, None, &thunks, 6);
    assert!(!gads.is_empty());
    for g in &gads {
        let again = redecode_text(&secs[0], g);
        assert_eq!(again, g.text);
    }
}

#[test]
fn format_is_idempotent() {
    let bin = Binary::new(String::from("blob"), vec![0x58, 0xc3]);
    let secs = bin.sections(Some(true)).unwrap();
    let thunks: Vec<Thunk> = Vec::new();
    let gads = scan_region(&secs[0], true, true, true, false, None, &thunks, 6);
    for g in &gads {
        assert_eq!(g.format_instruction(), g.format_instruction());
    }
}

#[test]
fn malformed_object_errors() {
    // an archive magic with no valid members: malformed to the parser
    let mut ar = b"!<arch>\n".to_vec();
    ar.resize(64, 0x20);
    let bin = Binary::new(String::from("ar"), ar);
    assert_eq!(bin.sections(Some(false)).err(), Some(Error::ParseErr));
    assert_eq!(bin.get_sym_addr(&b"x".to_vec()).err(), Some(Error::ParseErr));
}
