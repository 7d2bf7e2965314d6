//! A decoded x86 instruction, modelled by the plain values the gadget rules
//! read: length, mnemonic, flow control, the first two operands, the memory
//! base register, the near-branch target and the legacy prefix flags.
//!
//! Decoding and Intel-syntax formatting are done by iced_x86 behind two
//! trusted wrappers; everything downstream works on [`Insn`] values.

use vstd::prelude::*;

verus! {

// Mnemonic numbers, as iced_x86::Mnemonic declares them.
/// iced_x86::Mnemonic::INVALID
pub const M_INVALID: u16 = 0;
/// iced_x86::Mnemonic::Adc
pub const M_ADC: u16 = 5;
/// iced_x86::Mnemonic::Adcx
pub const M_ADCX: u16 = 6;
/// iced_x86::Mnemonic::Add
pub const M_ADD: u16 = 7;
/// iced_x86::Mnemonic::Bndmov
pub const M_BNDMOV: u16 = 48;
/// iced_x86::Mnemonic::Call
pub const M_CALL: u16 = 59;
/// iced_x86::Mnemonic::Cmova, the first of the sixteen CMOVcc mnemonics
pub const M_CMOV_FIRST: u16 = 77;
/// iced_x86::Mnemonic::Cmovs, the last of the sixteen CMOVcc mnemonics
pub const M_CMOV_LAST: u16 = 92;
/// iced_x86::Mnemonic::Cmpxchg
pub const M_CMPXCHG: u16 = 101;
/// iced_x86::Mnemonic::Cmpxchg16b
pub const M_CMPXCHG16B: u16 = 102;
/// iced_x86::Mnemonic::Cmpxchg8b
pub const M_CMPXCHG8B: u16 = 103;
/// iced_x86::Mnemonic::Enter
pub const M_ENTER: u16 = 155;
/// iced_x86::Mnemonic::Iret
pub const M_IRET: u16 = 296;
/// iced_x86::Mnemonic::Jmp
pub const M_JMP: u16 = 308;
/// iced_x86::Mnemonic::Leave
pub const M_LEAVE: u16 = 375;
/// iced_x86::Mnemonic::Mov
pub const M_MOV: u16 = 414;
/// iced_x86::Mnemonic::Movbe
pub const M_MOVBE: u16 = 417;
/// iced_x86::Mnemonic::Movd
pub const M_MOVD: u16 = 418;
/// iced_x86::Mnemonic::Nop
pub const M_NOP: u16 = 465;
/// iced_x86::Mnemonic::Pop
pub const M_POP: u16 = 590;
/// iced_x86::Mnemonic::Popa
pub const M_POPA: u16 = 591;
/// iced_x86::Mnemonic::Ret
pub const M_RET: u16 = 662;
/// iced_x86::Mnemonic::Sbb
pub const M_SBB: u16 = 681;
/// iced_x86::Mnemonic::Sub
pub const M_SUB: u16 = 740;
/// iced_x86::Mnemonic::Sysexit
pub const M_SYSEXIT: u16 = 748;
/// iced_x86::Mnemonic::Sysret
pub const M_SYSRET: u16 = 749;
/// iced_x86::Mnemonic::Xadd
pub const M_XADD: u16 = 1506;
/// iced_x86::Mnemonic::Xchg
pub const M_XCHG: u16 = 1509;
/// iced_x86::Mnemonic::Sysexitq
pub const M_SYSEXITQ: u16 = 1549;
/// iced_x86::Mnemonic::Sysretq
pub const M_SYSRETQ: u16 = 1562;
/// iced_x86::Mnemonic::Popad
pub const M_POPAD: u16 = 1613;
/// iced_x86::Mnemonic::Iretd
pub const M_IRETD: u16 = 1618;
/// iced_x86::Mnemonic::Iretq
pub const M_IRETQ: u16 = 1619;

// Flow-control categories, as iced_x86::FlowControl declares them.
/// iced_x86::FlowControl::Next
pub const FC_NEXT: u16 = 0;
/// iced_x86::FlowControl::ConditionalBranch
pub const FC_CONDITIONAL_BRANCH: u16 = 3;
/// iced_x86::FlowControl::Call
pub const FC_CALL: u16 = 5;

// Operand kinds, as iced_x86::OpKind declares them.
/// iced_x86::OpKind::Register
pub const OK_REGISTER: u16 = 0;
/// iced_x86::OpKind::NearBranch16
pub const OK_NEAR_BRANCH16: u16 = 1;
/// iced_x86::OpKind::NearBranch32
pub const OK_NEAR_BRANCH32: u16 = 2;
/// iced_x86::OpKind::NearBranch64
pub const OK_NEAR_BRANCH64: u16 = 3;
/// iced_x86::OpKind::Immediate8
pub const OK_IMMEDIATE8: u16 = 6;
/// iced_x86::OpKind::Immediate8_2nd
pub const OK_IMMEDIATE8_2ND: u16 = 7;
/// iced_x86::OpKind::Immediate16
pub const OK_IMMEDIATE16: u16 = 8;
/// iced_x86::OpKind::Immediate32
pub const OK_IMMEDIATE32: u16 = 9;
/// iced_x86::OpKind::Immediate64
pub const OK_IMMEDIATE64: u16 = 10;
/// iced_x86::OpKind::Immediate8to16
pub const OK_IMMEDIATE8TO16: u16 = 11;
/// iced_x86::OpKind::Immediate8to32
pub const OK_IMMEDIATE8TO32: u16 = 12;
/// iced_x86::OpKind::Immediate8to64
pub const OK_IMMEDIATE8TO64: u16 = 13;
/// iced_x86::OpKind::Immediate32to64
pub const OK_IMMEDIATE32TO64: u16 = 14;
/// iced_x86::OpKind::Memory
pub const OK_MEMORY: u16 = 24;

// Register numbers, as iced_x86::Register declares them.
/// iced_x86::Register::None
pub const R_NONE: u32 = 0;
/// iced_x86::Register::SP
pub const R_SP: u32 = 25;
/// iced_x86::Register::BP
pub const R_BP: u32 = 26;
/// iced_x86::Register::ESP
pub const R_ESP: u32 = 41;
/// iced_x86::Register::EBP
pub const R_EBP: u32 = 42;
/// iced_x86::Register::RSP
pub const R_RSP: u32 = 57;
/// iced_x86::Register::RBP
pub const R_RBP: u32 = 58;
/// iced_x86::Register::EIP
pub const R_EIP: u32 = 69;
/// iced_x86::Register::RIP
pub const R_RIP: u32 = 70;

// Instruction codes, as iced_x86::Code declares them.
/// iced_x86::Code::INVALID
pub const C_INVALID: u16 = 0;
/// iced_x86::Code::Call_rel32_64
pub const C_CALL_REL32_64: u16 = 693;
/// iced_x86::Code::Jmp_rel32_64
pub const C_JMP_REL32_64: u16 = 696;

/// One decoded instruction, reduced to the plain values the rules and the
/// patcher read. The numeric fields carry iced_x86's own enum numbering (see
/// the constants above).
#[derive(Clone, Copy, Debug, PartialEq, Eq, Structural)]
pub struct Insn {
    /// Byte length; between 1 and 15 for anything decoded inside a region.
    pub len: usize,
    /// Instruction code number; `C_INVALID` for an undecodable byte sequence.
    pub code: u16,
    /// Mnemonic number.
    pub mnemonic: u16,
    /// Flow-control category number.
    pub flow: u16,
    /// Kind of operand 0.
    pub op0_kind: u16,
    /// Register of operand 0, when `op0_kind` is a register kind.
    pub op0_reg: u32,
    /// Kind of operand 1.
    pub op1_kind: u16,
    /// Register of operand 1, when `op1_kind` is a register kind.
    pub op1_reg: u32,
    /// Base register of the memory operand, `R_NONE` when absent.
    pub mem_base: u32,
    /// Absolute target of a near relative branch; 0 when operand 0 is no
    /// near branch.
    pub target: u64,
    /// LOCK legacy prefix present.
    pub lock_prefix: bool,
    /// REP legacy prefix present.
    pub rep_prefix: bool,
    /// REPE legacy prefix present.
    pub repe_prefix: bool,
    /// REPNE legacy prefix present.
    pub repne_prefix: bool,
    /// XACQUIRE legacy prefix present.
    pub xacquire_prefix: bool,
    /// XRELEASE legacy prefix present.
    pub xrelease_prefix: bool,
}

/// The instruction that x86 decoding yields from `bytes[offset..]` with
/// instruction pointer `ip`, in 64-bit mode when `bit64`. Decoding is a
/// function of these arguments alone; the trusted wrapper below ties it to
/// iced_x86's decoder.
pub uninterp spec fn decoded(bytes: Seq<u8>, bit64: bool, ip: u64, offset: int) -> Insn;

/// The canonical Intel-syntax text of the instruction decoded from
/// `bytes[offset..]` with instruction pointer `ip`: hex literals prefixed
/// `0x` and lowercase, a space after operand separators, no leading zeros on
/// branch displacements, RIP-relative addressing enabled. A function of the
/// arguments alone; the trusted wrapper below ties it to iced_x86's
/// Intel formatter.
pub uninterp spec fn formatted(bytes: Seq<u8>, bit64: bool, ip: u64, offset: int) -> Seq<u8>;

/// Relies on iced_x86::Decoder::with_ip and Decoder::decode, and on the
/// Instruction accessors named in the body: decoding is deterministic in
/// `(bytes[offset..], bit64, ip)`; a decode that starts inside the buffer
/// consumes between 1 and 15 bytes and never runs past the end.
#[verifier::external_body]
pub fn decode_insn(bytes: &Vec<u8>, bit64: bool, ip: u64, offset: usize) -> (r: Insn)
    requires
        offset < bytes@.len(),
    ensures
        r == decoded(bytes@, bit64, ip, offset as int),
        1 <= r.len <= 15,
        offset + r.len <= bytes@.len(),
{
    let mut d = iced_x86::Decoder::with_ip(if bit64 { 64 } else { 32 }, &bytes[offset..], ip, iced_x86::DecoderOptions::NONE);
    let i = d.decode();
    Insn {
        len: i.len(), code: i.code() as u16, mnemonic: i.mnemonic() as u16, flow: i.flow_control() as u16,
        op0_kind: i.op0_kind() as u16, op0_reg: i.op0_register() as u32,
        op1_kind: i.op1_kind() as u16, op1_reg: i.op1_register() as u32,
        mem_base: i.memory_base() as u32, target: i.near_branch_target(),
        lock_prefix: i.has_lock_prefix(), rep_prefix: i.has_rep_prefix(), repe_prefix: i.has_repe_prefix(),
        repne_prefix: i.has_repne_prefix(), xacquire_prefix: i.has_xacquire_prefix(), xrelease_prefix: i.has_xrelease_prefix(),
    }
}

/// Relies on iced_x86::Decoder::decode and Formatter::format with the
/// IntelFormatter: with the fixed options set in the body, the text is a
/// function of `(bytes[offset..], bit64, ip)` alone.
#[verifier::external_body]
pub fn format_insn(bytes: &Vec<u8>, bit64: bool, ip: u64, offset: usize) -> (r: Vec<u8>)
    requires
        offset < bytes@.len(),
    ensures
        r@ == formatted(bytes@, bit64, ip, offset as int),
{
    let mut d = iced_x86::Decoder::with_ip(if bit64 { 64 } else { 32 }, &bytes[offset..], ip, iced_x86::DecoderOptions::NONE);
    let i = d.decode();
    let mut f = iced_x86::IntelFormatter::new();
    let o = iced_x86::Formatter::options_mut(&mut f);
    o.set_hex_prefix("0x"); o.set_hex_suffix(""); o.set_space_after_operand_separator(true);
    o.set_branch_leading_zeros(false); o.set_uppercase_hex(false); o.set_rip_relative_addresses(true);
    let mut s = String::new();
    iced_x86::Formatter::format(&mut f, &i, &mut s);
    s.into_bytes()
}

} // verus!
