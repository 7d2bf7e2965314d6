//! Pure predicates over a decoded instruction: is it a gadget tail, a valid
//! gadget interior, a stack-pivot head, a base-pivot head.
//!
//! Each predicate exists twice: a spec function that states it, and an
//! executable function proved to return exactly the spec.

use vstd::prelude::*;
use crate::insn::Insn;
use crate::insn::M_ADC;
use crate::insn::M_ADCX;
use crate::insn::M_ADD;
use crate::insn::M_BNDMOV;
use crate::insn::M_CALL;
use crate::insn::M_CMOV_FIRST;
use crate::insn::M_CMOV_LAST;
use crate::insn::M_CMPXCHG;
use crate::insn::M_CMPXCHG16B;
use crate::insn::M_CMPXCHG8B;
use crate::insn::M_ENTER;
use crate::insn::M_IRET;
use crate::insn::M_IRETD;
use crate::insn::M_IRETQ;
use crate::insn::M_JMP;
use crate::insn::M_LEAVE;
use crate::insn::M_MOV;
use crate::insn::M_MOVBE;
use crate::insn::M_MOVD;
use crate::insn::M_POP;
use crate::insn::M_POPA;
use crate::insn::M_POPAD;
use crate::insn::M_RET;
use crate::insn::M_SBB;
use crate::insn::M_SUB;
use crate::insn::M_SYSEXIT;
use crate::insn::M_SYSEXITQ;
use crate::insn::M_SYSRET;
use crate::insn::M_SYSRETQ;
use crate::insn::M_XADD;
use crate::insn::M_XCHG;
use crate::insn::FC_CALL;
use crate::insn::FC_CONDITIONAL_BRANCH;
use crate::insn::FC_NEXT;
use crate::insn::OK_IMMEDIATE32TO64;
use crate::insn::OK_IMMEDIATE8;
use crate::insn::OK_MEMORY;
use crate::insn::OK_NEAR_BRANCH16;
use crate::insn::OK_NEAR_BRANCH32;
use crate::insn::OK_NEAR_BRANCH64;
use crate::insn::OK_REGISTER;
use crate::insn::C_INVALID;
use crate::insn::R_BP;
use crate::insn::R_EBP;
use crate::insn::R_EIP;
use crate::insn::R_ESP;
use crate::insn::R_NONE;
use crate::insn::R_RBP;
use crate::insn::R_RIP;
use crate::insn::R_RSP;
use crate::insn::R_SP;

verus! {

/// A per-register indirect thunk: symbol name and its address when the image
/// has the symbol.
pub struct Thunk {
    /// Symbol name, such as `__x86_indirect_thunk_rax`.
    pub name: Vec<u8>,
    /// Address of the symbol, when present in the image.
    pub addr: Option<u64>,
}

/// Operand kind is a near relative branch.
pub open spec fn is_near_branch_kind(k: u16) -> bool {
    k == OK_NEAR_BRANCH16 || k == OK_NEAR_BRANCH32 || k == OK_NEAR_BRANCH64
}

/// A plain return, or a jump straight to the return thunk (when one is
/// known), which the kernel emits in place of every `ret`.
pub open spec fn spec_is_ret(i: Insn, ret_thunk: Option<u64>) -> bool {
    ||| i.mnemonic == M_RET
    ||| (i.mnemonic == M_JMP && is_near_branch_kind(i.op0_kind) && ret_thunk == Some(i.target))
}

/// A direct jump whose target is any of the sixteen per-register indirect
/// thunks. A jump to the return thunk is not one of these: that case is
/// [`spec_is_ret`]'s.
pub open spec fn spec_is_target_thunk(i: Insn, thunks: Seq<Thunk>) -> bool {
    &&& i.mnemonic == M_JMP
    &&& is_near_branch_kind(i.op0_kind)
    &&& exists|k: int| 0 <= k < thunks.len() && thunks[k].addr == Some(i.target)
}

/// A syscall-return instruction.
pub open spec fn spec_is_sys(i: Insn) -> bool {
    ||| i.mnemonic == M_IRET
    ||| i.mnemonic == M_IRETD
    ||| i.mnemonic == M_IRETQ
    ||| i.mnemonic == M_SYSRET
    ||| i.mnemonic == M_SYSRETQ
    ||| i.mnemonic == M_SYSEXIT
    ||| i.mnemonic == M_SYSEXITQ
}

/// A JMP or CALL with an attacker-controllable target: a register operand,
/// or a memory operand not based on the instruction pointer. In noisy mode
/// any JMP/CALL qualifies.
pub open spec fn spec_is_jop(i: Insn, noisy: bool) -> bool {
    &&& (i.mnemonic == M_JMP || i.mnemonic == M_CALL)
    &&& {
        ||| noisy
        ||| i.op0_kind == OK_REGISTER
        ||| (i.op0_kind == OK_MEMORY && i.mem_base != R_EIP && i.mem_base != R_RIP)
    }
}

/// The byte sequence did not decode to an instruction.
pub open spec fn spec_is_invalid(i: Insn) -> bool {
    i.code == C_INVALID
}

/// A gadget-terminating instruction: valid, diverting control, and admitted
/// by at least one of the enabled tail families (ROP, syscall-return, JOP).
pub open spec fn spec_is_gadget_tail(
    i: Insn,
    rop: bool,
    sys: bool,
    jop: bool,
    noisy: bool,
    ret_thunk: Option<u64>,
    thunks: Seq<Thunk>,
) -> bool {
    &&& !spec_is_invalid(i)
    &&& i.flow != FC_NEXT
    &&& {
        ||| (rop && spec_is_target_thunk(i, thunks))
        ||| (rop && spec_is_ret(i, ret_thunk))
        ||| (sys && spec_is_sys(i))
        ||| (jop && spec_is_jop(i, noisy))
    }
}

/// Any of the legacy prefixes that disqualify a quiet gadget interior.
pub open spec fn spec_has_noisy_prefix(i: Insn) -> bool {
    ||| i.lock_prefix
    ||| i.rep_prefix
    ||| i.repe_prefix
    ||| i.repne_prefix
    ||| i.xacquire_prefix
    ||| i.xrelease_prefix
}

/// An instruction admissible in the interior of a gadget: valid, free of
/// noisy prefixes (unless noisy mode), and falling through — with two
/// exceptions: a conditional branch in noisy mode, and a Call-tagged
/// instruction that is not a plain CALL (a system-call entry).
pub open spec fn spec_is_rop_gadget_head(i: Insn, noisy: bool) -> bool {
    &&& !spec_is_invalid(i)
    &&& (noisy || !spec_has_noisy_prefix(i))
    &&& {
        ||| i.flow == FC_NEXT
        ||| (i.flow == FC_CONDITIONAL_BRANCH && noisy)
        ||| (i.flow == FC_CALL && i.mnemonic != M_CALL)
    }
}

/// Stack-pointer register of any width.
pub open spec fn is_sp_reg(r: u32) -> bool {
    r == R_RSP || r == R_ESP || r == R_SP
}

/// Base-pointer register of any width.
pub open spec fn is_bp_reg(r: u32) -> bool {
    r == R_RBP || r == R_EBP || r == R_BP
}

/// One of the sixteen CMOVcc mnemonics, which iced_x86 numbers contiguously.
pub open spec fn is_cmov_mnemonic(m: u16) -> bool {
    M_CMOV_FIRST <= m <= M_CMOV_LAST
}

/// Mnemonics that pivot through arithmetic, exchange-compare or pop.
pub open spec fn is_arith_pivot_mnemonic(m: u16) -> bool {
    ||| m == M_ADC
    ||| m == M_ADCX
    ||| m == M_ADD
    ||| m == M_SBB
    ||| m == M_SUB
    ||| m == M_BNDMOV
    ||| is_cmov_mnemonic(m)
    ||| m == M_CMPXCHG
    ||| m == M_CMPXCHG16B
    ||| m == M_CMPXCHG8B
    ||| m == M_POP
    ||| m == M_POPA
    ||| m == M_POPAD
}

/// Mnemonics that pivot through a plain move.
pub open spec fn is_mov_pivot_mnemonic(m: u16) -> bool {
    m == M_MOV || m == M_MOVBE || m == M_MOVD
}

/// Operand kind is an immediate of any width, iced_x86 numbers the nine
/// immediate kinds contiguously.
pub open spec fn is_immediate_kind(k: u16) -> bool {
    OK_IMMEDIATE8 <= k <= OK_IMMEDIATE32TO64
}

/// The shared shape of the two pivot-head rules; `sp` selects the
/// stack-pointer register set, otherwise the base-pointer set. `LEAVE`
/// qualifies only as a stack pivot, `ENTER` only as a base pivot.
pub open spec fn spec_pivot_head(i: Insn, sp: bool) -> bool {
    let hit0 = if sp { is_sp_reg(i.op0_reg) } else { is_bp_reg(i.op0_reg) };
    let hit1 = if sp { is_sp_reg(i.op1_reg) } else { is_bp_reg(i.op1_reg) };
    if is_arith_pivot_mnemonic(i.mnemonic) {
        hit0 && (is_immediate_kind(i.op1_kind) || i.op1_kind == OK_REGISTER)
    } else if is_mov_pivot_mnemonic(i.mnemonic) {
        hit0 && (i.op1_kind == OK_REGISTER || i.mem_base != R_NONE)
    } else if i.mnemonic == M_XADD || i.mnemonic == M_XCHG {
        hit0 || hit1
    } else if sp {
        i.mnemonic == M_LEAVE
    } else {
        i.mnemonic == M_ENTER
    }
}

/// First instruction of a gadget that reassigns the stack pointer.
pub open spec fn spec_is_stack_pivot_head(i: Insn) -> bool {
    spec_pivot_head(i, true)
}

/// First instruction of a gadget that reassigns the base pointer.
pub open spec fn spec_is_base_pivot_head(i: Insn) -> bool {
    spec_pivot_head(i, false)
}

/// See [`spec_is_ret`].
pub fn is_ret(instr: &Insn, ret_thunk: Option<u64>) -> (r: bool)
    ensures
        r == spec_is_ret(*instr, ret_thunk),
{
    if instr.mnemonic == M_RET {
        true
    } else if instr.mnemonic == M_JMP && is_near_branch(instr.op0_kind) {
        match ret_thunk {
            Some(t) => instr.target == t,
            None => false,
        }
    } else {
        false
    }
}

/// See [`is_near_branch_kind`].
pub fn is_near_branch(k: u16) -> (r: bool)
    ensures
        r == is_near_branch_kind(k),
{
    k == OK_NEAR_BRANCH16 || k == OK_NEAR_BRANCH32 || k == OK_NEAR_BRANCH64
}

/// See [`spec_is_target_thunk`].
pub fn is_target_thunk(instr: &Insn, thunks: &Vec<Thunk>) -> (r: bool)
    ensures
        r == spec_is_target_thunk(*instr, thunks@),
{
    if instr.mnemonic != M_JMP || !is_near_branch(instr.op0_kind) {
        return false;
    }
    let mut k: usize = 0;
    while k < thunks.len()
        invariant
            0 <= k <= thunks@.len(),
            instr.mnemonic == M_JMP,
            is_near_branch_kind(instr.op0_kind),
            forall|j: int| 0 <= j < k ==> thunks@[j].addr != Some(instr.target),
        decreases thunks@.len() - k,
    {
        match thunks[k].addr {
            Some(a) => {
                if a == instr.target {
                    assert(thunks@[k as int].addr == Some(instr.target));
                    return true;
                }
            },
            None => {},
        }
        k = k + 1;
    }
    false
}

/// See [`spec_is_sys`].
pub fn is_sys(instr: &Insn) -> (r: bool)
    ensures
        r == spec_is_sys(*instr),
{
    instr.mnemonic == M_IRET || instr.mnemonic == M_IRETD || instr.mnemonic == M_IRETQ
        || instr.mnemonic == M_SYSRET || instr.mnemonic == M_SYSRETQ
        || instr.mnemonic == M_SYSEXIT || instr.mnemonic == M_SYSEXITQ
}

/// See [`spec_is_jop`].
pub fn is_jop(instr: &Insn, noisy: bool) -> (r: bool)
    ensures
        r == spec_is_jop(*instr, noisy),
{
    if instr.mnemonic != M_JMP && instr.mnemonic != M_CALL {
        false
    } else if noisy {
        true
    } else if instr.op0_kind == OK_REGISTER {
        true
    } else {
        instr.op0_kind == OK_MEMORY && instr.mem_base != R_EIP && instr.mem_base != R_RIP
    }
}

/// See [`spec_is_invalid`].
pub fn is_invalid(instr: &Insn) -> (r: bool)
    ensures
        r == spec_is_invalid(*instr),
{
    instr.code == C_INVALID
}

/// See [`spec_is_gadget_tail`].
pub fn is_gadget_tail(
    instr: &Insn,
    rop: bool,
    sys: bool,
    jop: bool,
    noisy: bool,
    ret_thunk: Option<u64>,
    thunks: &Vec<Thunk>,
) -> (r: bool)
    ensures
        r == spec_is_gadget_tail(*instr, rop, sys, jop, noisy, ret_thunk, thunks@),
{
    if is_invalid(instr) {
        return false;
    }
    if instr.flow == FC_NEXT {
        return false;
    }
    if rop && is_target_thunk(instr, thunks) {
        return true;
    }
    if rop && is_ret(instr, ret_thunk) {
        return true;
    }
    if sys && is_sys(instr) {
        return true;
    }
    if jop && is_jop(instr, noisy) {
        return true;
    }
    false
}

/// See [`spec_is_rop_gadget_head`].
pub fn is_rop_gadget_head(instr: &Insn, noisy: bool) -> (r: bool)
    ensures
        r == spec_is_rop_gadget_head(*instr, noisy),
{
    if is_invalid(instr) {
        return false;
    }
    if !noisy
        && (instr.lock_prefix || instr.rep_prefix || instr.repe_prefix || instr.repne_prefix
            || instr.xacquire_prefix || instr.xrelease_prefix)
    {
        return false;
    }
    instr.flow == FC_NEXT
        || (instr.flow == FC_CONDITIONAL_BRANCH && noisy)
        || (instr.flow == FC_CALL && instr.mnemonic != M_CALL)
}

/// The shared body of the two pivot-head rules; see [`spec_pivot_head`].
fn pivot_head(instr: &Insn, sp: bool) -> (r: bool)
    ensures
        r == spec_pivot_head(*instr, sp),
{
    let hit0 = if sp {
        instr.op0_reg == R_RSP || instr.op0_reg == R_ESP || instr.op0_reg == R_SP
    } else {
        instr.op0_reg == R_RBP || instr.op0_reg == R_EBP || instr.op0_reg == R_BP
    };
    let hit1 = if sp {
        instr.op1_reg == R_RSP || instr.op1_reg == R_ESP || instr.op1_reg == R_SP
    } else {
        instr.op1_reg == R_RBP || instr.op1_reg == R_EBP || instr.op1_reg == R_BP
    };
    let m = instr.mnemonic;
    if m == M_ADC || m == M_ADCX || m == M_ADD || m == M_SBB || m == M_SUB || m == M_BNDMOV
        || (M_CMOV_FIRST <= m && m <= M_CMOV_LAST) || m == M_CMPXCHG || m == M_CMPXCHG16B
        || m == M_CMPXCHG8B || m == M_POP || m == M_POPA || m == M_POPAD {
        hit0
            && ((OK_IMMEDIATE8 <= instr.op1_kind && instr.op1_kind <= OK_IMMEDIATE32TO64)
                || instr.op1_kind == OK_REGISTER)
    } else if m == M_MOV || m == M_MOVBE || m == M_MOVD {
        hit0 && (instr.op1_kind == OK_REGISTER || instr.mem_base != R_NONE)
    } else if m == M_XADD || m == M_XCHG {
        hit0 || hit1
    } else if sp {
        m == M_LEAVE
    } else {
        m == M_ENTER
    }
}

/// See [`spec_is_stack_pivot_head`].
pub fn is_stack_pivot_head(instr: &Insn) -> (r: bool)
    ensures
        r == spec_is_stack_pivot_head(*instr),
{
    pivot_head(instr, true)
}

/// A stack-pivot gadget still has to end in a return; see [`spec_is_ret`].
pub fn is_stack_pivot_tail(instr: &Insn, ret_thunk: Option<u64>) -> (r: bool)
    ensures
        r == spec_is_ret(*instr, ret_thunk),
{
    is_ret(instr, ret_thunk)
}

/// See [`spec_is_base_pivot_head`].
pub fn is_base_pivot_head(instr: &Insn) -> (r: bool)
    ensures
        r == spec_is_base_pivot_head(*instr),
{
    pivot_head(instr, false)
}

} // verus!
