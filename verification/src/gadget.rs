//! A gadget: an ordered sequence of instructions decoded from a code
//! region, its absolute address, and its canonical Intel-syntax text.
//!
//! The text — instructions separated by `; ` and terminated by `;` — is the
//! gadget's identity: deduplication and the regex filters both work on it.

use vstd::prelude::*;
use crate::binary::Section;
use crate::insn::{decode_insn, decoded, format_insn, formatted, Insn};
use crate::rules::{
    is_stack_pivot_head, is_stack_pivot_tail, spec_is_ret, spec_is_base_pivot_head,
    spec_is_stack_pivot_head, is_base_pivot_head,
};
use crate::textutil::push_all;

verus! {

/// ASCII `;`.
pub const B_SEMI: u8 = 59;
/// ASCII space.
pub const B_SPACE: u8 = 32;

/// The instruction that decoding yields at offset `s` of a region whose
/// first byte has absolute address `base`.
pub open spec fn insn_at(b: Seq<u8>, bit64: bool, base: u64, s: int) -> Insn {
    decoded(b, bit64, (base + s) as u64, s)
}

/// The canonical text of the instructions at `offs`: each one's Intel
/// syntax, separated by `; ` and terminated by `;`.
pub open spec fn spec_gadget_text(b: Seq<u8>, bit64: bool, base: u64, offs: Seq<usize>) -> Seq<u8>
    decreases offs.len(),
{
    if offs.len() == 0 {
        Seq::empty()
    } else {
        let head = formatted(b, bit64, (base + offs[0]) as u64, offs[0] as int);
        if offs.len() == 1 {
            head + seq![B_SEMI]
        } else {
            head + seq![B_SEMI, B_SPACE] + spec_gadget_text(b, bit64, base, offs.skip(1))
        }
    }
}

/// An immutable gadget value.
pub struct Gadget {
    /// Instruction start offsets within the region, consecutive decodes.
    pub offs: Vec<usize>,
    /// The instructions at those offsets.
    pub insns: Vec<Insn>,
    /// Absolute virtual address of the first instruction.
    pub addr: u64,
    /// Canonical text; the dedup key and the regex target.
    pub text: Vec<u8>,
}

/// The gadget is exactly what decoding the region at `g.offs[0]` yields:
/// offsets chain by instruction length, instructions are the decodes at
/// their offsets, the address is absolute, and the text is canonical.
pub open spec fn wf_gadget(b: Seq<u8>, bit64: bool, base: u64, g: Gadget) -> bool {
    &&& g.offs@.len() >= 1
    &&& g.offs@.len() == g.insns@.len()
    &&& (forall|i: int| 0 <= i < g.offs@.len() ==> g.offs@[i] < b.len())
    &&& (forall|i: int|
        0 <= i < g.offs@.len() ==> g.insns@[i] == insn_at(b, bit64, base, g.offs@[i] as int))
    &&& (forall|i: int|
        0 <= i < g.offs@.len() - 1 ==> g.offs@[i + 1] == g.offs@[i] + g.insns@[i].len)
    &&& g.addr == base + g.offs@[0]
    &&& g.text@ == spec_gadget_text(b, bit64, base, g.offs@)
}

/// Byte-for-byte copy.
pub fn copy_bytes(v: &Vec<u8>) -> (r: Vec<u8>)
    ensures
        r@ == v@,
{
    let mut out: Vec<u8> = Vec::new();
    push_all(&mut out, v);
    proof {
        assert(Seq::<u8>::empty() + v@ =~= v@);
    }
    out
}

impl Gadget {
    /// Assemble a gadget from the offsets and instructions a scan walked,
    /// formatting its canonical text; see [`wf_gadget`].
    #[verifier::spinoff_prover]
    pub(crate) fn assemble(sec: &Section, offs: Vec<usize>, insns: Vec<Insn>) -> (g: Gadget)
        requires
            sec.wf(),
            offs@.len() >= 1,
            offs@.len() == insns@.len(),
            forall|i: int| 0 <= i < offs@.len() ==> offs@[i] < sec@.len(),
            forall|i: int|
                0 <= i < offs@.len() ==> insns@[i] == insn_at(
                    sec@,
                    sec.bit64(),
                    sec.spec_base(),
                    offs@[i] as int,
                ),
            forall|i: int| 0 <= i < offs@.len() - 1 ==> offs@[i + 1] == offs@[i] + insns@[i].len,
        ensures
            wf_gadget(sec@, sec.bit64(), sec.spec_base(), g),
            g.offs@ == offs@,
            g.insns@ == insns@,
    {
        let ghost b = sec@;
        let ghost bit64 = sec.bit64();
        let ghost base = sec.spec_base();
        let bytes = sec.bytes();
        let bit64e = sec.is_64();
        let basee = sec.base();
        let addr = basee + (offs[0] as u64);
        let mut text: Vec<u8> = Vec::new();
        let mut i: usize = 0;
        proof {
            assert(offs@.skip(0) =~= offs@);
            assert(Seq::<u8>::empty() + spec_gadget_text(b, bit64, base, offs@)
                =~= spec_gadget_text(b, bit64, base, offs@));
        }
        while i < offs.len()
            invariant
                sec.wf(),
                b == sec@,
                bit64 == sec.bit64(),
                base == sec.spec_base(),
                bit64e == sec.bit64(),
                basee == sec.spec_base(),
                bytes@ == b,
                0 <= i <= offs@.len(),
                offs@.len() >= 1,
                forall|k: int| 0 <= k < offs@.len() ==> offs@[k] < sec@.len(),
                spec_gadget_text(b, bit64, base, offs@) == text@ + spec_gadget_text(
                    b,
                    bit64,
                    base,
                    offs@.skip(i as int),
                ),
            decreases offs@.len() - i,
        {
            let ghost rest = offs@.skip(i as int);
            let ghost text0 = text@;
            let off = offs[i];
            let ip = basee + (off as u64);
            let t = format_insn(bytes, bit64e, ip, off);
            proof {
                assert(rest[0] == offs@[i as int]);
                assert(rest.skip(1) =~= offs@.skip(i + 1));
            }
            push_all(&mut text, &t);
            text.push(B_SEMI);
            if i + 1 < offs.len() {
                text.push(B_SPACE);
                proof {
                    let head = formatted(b, bit64, (base + rest[0]) as u64, rest[0] as int);
                    assert(head == t@);
                    assert(spec_gadget_text(b, bit64, base, rest) == head + seq![B_SEMI, B_SPACE]
                        + spec_gadget_text(b, bit64, base, rest.skip(1)));
                    assert(text@ =~= text0 + t@ + seq![B_SEMI, B_SPACE]);
                    assert(text0 + (head + seq![B_SEMI, B_SPACE] + spec_gadget_text(
                        b,
                        bit64,
                        base,
                        offs@.skip(i + 1),
                    )) =~= text@ + spec_gadget_text(b, bit64, base, offs@.skip(i + 1)));
                }
            } else {
                proof {
                    let head = formatted(b, bit64, (base + rest[0]) as u64, rest[0] as int);
                    assert(head == t@);
                    assert(rest.len() == 1);
                    assert(spec_gadget_text(b, bit64, base, rest) == head + seq![B_SEMI]);
                    assert(offs@.skip(i + 1) =~= Seq::<usize>::empty());
                    assert(text@ =~= text0 + t@ + seq![B_SEMI]);
                    assert(text0 + (head + seq![B_SEMI]) =~= text@ + spec_gadget_text(
                        b,
                        bit64,
                        base,
                        offs@.skip(i + 1),
                    ));
                }
            }
            i = i + 1;
        }
        proof {
            assert(offs@.skip(offs@.len() as int) =~= Seq::<usize>::empty());
            assert(text@ + Seq::<u8>::empty() =~= text@);
        }
        Gadget { offs, insns, addr, text }
    }

    /// The canonical text, freshly rendered; calling this any number of
    /// times yields the same bytes.
    pub fn format_instruction(&self) -> (r: Vec<u8>)
        ensures
            r@ == self.text@,
    {
        copy_bytes(&self.text)
    }

    /// The gadget's first instruction reassigns the stack pointer and its
    /// last is a return (or a jump to the return thunk).
    pub open spec fn spec_is_stack_pivot(&self, ret_thunk: Option<u64>) -> bool
        recommends
            self.insns@.len() >= 1,
    {
        spec_is_stack_pivot_head(self.insns@[0]) && spec_is_ret(
            self.insns@[self.insns@.len() - 1],
            ret_thunk,
        )
    }

    /// See [`Gadget::spec_is_stack_pivot`].
    pub fn is_stack_pivot(&self, ret_thunk: Option<u64>) -> (r: bool)
        requires
            self.insns@.len() >= 1,
        ensures
            r == self.spec_is_stack_pivot(ret_thunk),
    {
        is_stack_pivot_head(&self.insns[0]) && is_stack_pivot_tail(
            &self.insns[self.insns.len() - 1],
            ret_thunk,
        )
    }

    /// The gadget's first instruction reassigns the base pointer.
    pub open spec fn spec_is_base_pivot(&self) -> bool
        recommends
            self.insns@.len() >= 1,
    {
        spec_is_base_pivot_head(self.insns@[0])
    }

    /// See [`Gadget::spec_is_base_pivot`].
    pub fn is_base_pivot(&self) -> (r: bool)
        requires
            self.insns@.len() >= 1,
        ensures
            r == self.spec_is_base_pivot(),
    {
        is_base_pivot_head(&self.insns[0])
    }

    /// The instructions, for callers that inspect them.
    pub fn instructions(&self) -> (r: &Vec<Insn>)
        ensures
            r@ == self.insns@,
    {
        &self.insns
    }
}

/// Canonical formatting is a function of the region and the instruction
/// offsets alone: two well-formed gadgets over the same offsets carry
/// identical text, so formatting any number of times yields the same
/// bytes.
pub proof fn lemma_text_deterministic(b: Seq<u8>, bit64: bool, base: u64, g1: Gadget, g2: Gadget)
    requires
        wf_gadget(b, bit64, base, g1),
        wf_gadget(b, bit64, base, g2),
        g1.offs@ == g2.offs@,
    ensures
        g1.text@ == g2.text@,
{
}

/// Soundness of emission: re-decode an emitted gadget from its recorded
/// start offset, one instruction after the next, and format what was
/// found; the gadget's canonical text comes back exactly.
#[verifier::spinoff_prover]
pub fn redecode_text(sec: &Section, g: &Gadget) -> (r: Vec<u8>)
    requires
        sec.wf(),
        wf_gadget(sec@, sec.bit64(), sec.spec_base(), *g),
    ensures
        r@ == g.text@,
{
    let bytes = sec.bytes();
    let bit64 = sec.is_64();
    let base = sec.base();
    let bl = bytes.len();
    let n = g.offs.len();
    let mut offs2: Vec<usize> = Vec::new();
    let mut insns2: Vec<Insn> = Vec::new();
    let mut cur = g.offs[0];
    let mut i: usize = 0;
    proof {
        assert(g.offs@.subrange(0, 0) =~= Seq::<usize>::empty());
        assert(g.insns@.subrange(0, 0) =~= Seq::<Insn>::empty());
    }
    while i < n
        invariant
            sec.wf(),
            bytes@ == sec@,
            bit64 == sec.bit64(),
            base == sec.spec_base(),
            bl == sec@.len(),
            wf_gadget(sec@, sec.bit64(), sec.spec_base(), *g),
            n == g.offs@.len(),
            0 <= i <= n,
            offs2@ == g.offs@.subrange(0, i as int),
            insns2@ == g.insns@.subrange(0, i as int),
            i < n ==> cur == g.offs@[i as int],
        decreases n - i,
    {
        let insn = decode_insn(bytes, bit64, base + (cur as u64), cur);
        proof {
            assert(insn == g.insns@[i as int]);
        }
        offs2.push(cur);
        insns2.push(insn);
        proof {
            assert(g.offs@.subrange(0, i as int).push(g.offs@[i as int]) =~= g.offs@.subrange(
                0,
                i + 1,
            ));
            assert(g.insns@.subrange(0, i as int).push(g.insns@[i as int]) =~= g.insns@.subrange(
                0,
                i + 1,
            ));
        }
        if i + 1 < n {
            cur = cur + insn.len;
            proof {
                assert(cur == g.offs@[i + 1]);
            }
        }
        i = i + 1;
    }
    proof {
        assert(offs2@ =~= g.offs@);
        assert(insns2@ =~= g.insns@);
    }
    let g2 = Gadget::assemble(sec, offs2, insns2);
    proof {
        lemma_text_deterministic(sec@, sec.bit64(), sec.spec_base(), g2, *g);
    }
    g2.format_instruction()
}

} // verus!
