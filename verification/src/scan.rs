//! The backwards-tail-expansion scanner.
//!
//! For every byte offset of a code region: decode one instruction and ask
//! the tail classifier; for each tail offset `t`, enumerate every start
//! offset `s` in the lookback window from which a linear decode lands
//! exactly on the tail with every interior instruction head-qualified.
//! Each landing start yields one gadget; the tail alone always yields one.

use vstd::prelude::*;
use crate::binary::Section;
use crate::gadget::{insn_at, wf_gadget, Gadget};
use crate::insn::{decode_insn, Insn};
use crate::rules::{
    is_gadget_tail, is_rop_gadget_head, spec_is_gadget_tail, spec_is_rop_gadget_head, Thunk,
};

verus! {

/// A linear decode from `s` lands exactly on `t` using at most `fuel`
/// instructions, each of them head-qualified.
pub open spec fn chain_to(
    b: Seq<u8>,
    bit64: bool,
    base: u64,
    noisy: bool,
    s: int,
    t: int,
    fuel: int,
) -> bool
    decreases t - s,
{
    if s == t {
        true
    } else if s < 0 || s > t || fuel <= 0 {
        false
    } else {
        let i = insn_at(b, bit64, base, s);
        &&& spec_is_rop_gadget_head(i, noisy)
        &&& 1 <= i.len
        &&& s + i.len <= t
        &&& chain_to(b, bit64, base, noisy, s + i.len, t, fuel - 1)
    }
}

/// Lowest start offset the scanner considers for a tail at `t`: an
/// instruction is at most fifteen bytes, so `15 * max_instr` bytes bound
/// the lookback.
pub open spec fn window_lo(t: int, max_instr: int) -> int {
    if t - 15 * max_instr >= 0 {
        t - 15 * max_instr
    } else {
        0
    }
}

/// A gadget is emitted for start `s` and tail `t` exactly when `s` is the
/// tail itself, or lies in the lookback window and chains to the tail with
/// at most `max_instr - 1` interior instructions.
pub open spec fn spec_gadget_start(
    b: Seq<u8>,
    bit64: bool,
    base: u64,
    noisy: bool,
    max_instr: int,
    s: int,
    t: int,
) -> bool {
    ||| s == t
    ||| (window_lo(t, max_instr) <= s < t && chain_to(b, bit64, base, noisy, s, t, max_instr - 1))
}

/// Everything a gadget emitted for the tail at `t` satisfies: it is
/// well-formed for the region, ends at `t`, holds at most `max_instr`
/// instructions, every instruction but the last is head-qualified, and its
/// start is a legal gadget start for `t`.
pub open spec fn gadget_ok(
    b: Seq<u8>,
    bit64: bool,
    base: u64,
    noisy: bool,
    max_instr: int,
    t: int,
    g: Gadget,
) -> bool {
    &&& wf_gadget(b, bit64, base, g)
    &&& g.offs@[g.offs@.len() - 1] == t
    &&& g.insns@.len() <= max_instr
    &&& (forall|i: int| 0 <= i < g.insns@.len() - 1 ==> spec_is_rop_gadget_head(g.insns@[i], noisy))
    &&& spec_gadget_start(b, bit64, base, noisy, max_instr, g.offs@[0] as int, t)
}

/// [`gadget_ok`] for the gadget's own tail offset, which moreover passes
/// the tail classifier: what holds of every gadget a region scan emits.
pub open spec fn emitted_ok(
    b: Seq<u8>,
    bit64: bool,
    base: u64,
    rop: bool,
    sys: bool,
    jop: bool,
    noisy: bool,
    ret_thunk: Option<u64>,
    thunks: Seq<Thunk>,
    max_instr: int,
    g: Gadget,
) -> bool {
    &&& g.offs@.len() >= 1
    &&& {
        let t = g.offs@[g.offs@.len() - 1] as int;
        &&& gadget_ok(b, bit64, base, noisy, max_instr, t, g)
        &&& spec_is_gadget_tail(insn_at(b, bit64, base, t), rop, sys, jop, noisy, ret_thunk, thunks)
    }
}

/// Some gadget of `rs` starts at offset `s`.
pub open spec fn started(rs: Seq<Gadget>, s: int) -> bool {
    exists|k: int| 0 <= k < rs.len() && #[trigger] rs[k].offs@[0] == s
}

/// Some gadget of `rs` starts at `s` and ends at the tail `t`.
pub open spec fn covered(rs: Seq<Gadget>, s: int, t: int) -> bool {
    exists|k: int|
        0 <= k < rs.len() && #[trigger] rs[k].offs@[0] == s && rs[k].offs@[rs[k].offs@.len() - 1]
            == t
}

/// `rs2` extends `rs` element for element.
pub open spec fn seq_prefix_of(rs: Seq<Gadget>, rs2: Seq<Gadget>) -> bool {
    rs.len() <= rs2.len() && forall|k: int| 0 <= k < rs.len() ==> rs2[k] == rs[k]
}

/// Growing the gadget list keeps every started offset started.
pub proof fn lemma_started_extend(rs: Seq<Gadget>, rs2: Seq<Gadget>, s: int)
    requires
        seq_prefix_of(rs, rs2),
        started(rs, s),
    ensures
        started(rs2, s),
{
    let k = choose|k: int| 0 <= k < rs.len() && #[trigger] rs[k].offs@[0] == s;
    assert(rs2[k].offs@[0] == s);
}

/// Growing the gadget list keeps every covered pair covered.
pub proof fn lemma_covered_extend(rs: Seq<Gadget>, rs2: Seq<Gadget>, s: int, t: int)
    requires
        seq_prefix_of(rs, rs2),
        covered(rs, s, t),
    ensures
        covered(rs2, s, t),
{
    let k = choose|k: int|
        0 <= k < rs.len() && #[trigger] rs[k].offs@[0] == s && rs[k].offs@[rs[k].offs@.len() - 1]
            == t;
    assert(rs2[k].offs@[0] == s && rs2[k].offs@[rs2[k].offs@.len() - 1] == t);
}

/// Does the instruction at `offset` terminate a gadget under the enabled
/// tail families?
pub fn is_tail_at(
    sec: &Section,
    offset: usize,
    rop: bool,
    sys: bool,
    jop: bool,
    noisy: bool,
    ret_thunk: Option<u64>,
    thunks: &Vec<Thunk>,
) -> (r: bool)
    requires
        sec.wf(),
        offset < sec@.len(),
    ensures
        r == spec_is_gadget_tail(
            insn_at(sec@, sec.bit64(), sec.spec_base(), offset as int),
            rop,
            sys,
            jop,
            noisy,
            ret_thunk,
            thunks@,
        ),
{
    let i = decode_insn(sec.bytes(), sec.is_64(), sec.base() + (offset as u64), offset);
    is_gadget_tail(&i, rop, sys, jop, noisy, ret_thunk, thunks)
}

/// Attempt the linear decode from `s` to the tail at `t`; on success hand
/// back the instruction offsets and instructions, tail included.
#[verifier::spinoff_prover]
fn try_chain(sec: &Section, s: usize, t: usize, max_instr: usize, noisy: bool) -> (r: Option<
    (Vec<usize>, Vec<Insn>),
>)
    requires
        sec.wf(),
        s < t < sec@.len(),
        1 <= max_instr,
    ensures
        match r {
            Some(p) => {
                &&& chain_to(
                    sec@,
                    sec.bit64(),
                    sec.spec_base(),
                    noisy,
                    s as int,
                    t as int,
                    max_instr - 1,
                )
                &&& p.0@.len() == p.1@.len()
                &&& 2 <= p.0@.len() <= max_instr
                &&& p.0@[0] == s
                &&& p.0@[p.0@.len() - 1] == t
                &&& (forall|i: int| 0 <= i < p.0@.len() ==> p.0@[i] < sec@.len())
                &&& (forall|i: int|
                    0 <= i < p.0@.len() ==> p.1@[i] == insn_at(
                        sec@,
                        sec.bit64(),
                        sec.spec_base(),
                        p.0@[i] as int,
                    ))
                &&& (forall|i: int| 0 <= i < p.0@.len() - 1 ==> p.0@[i + 1] == p.0@[i] + p.1@[i].len)
                &&& (forall|i: int|
                    0 <= i < p.0@.len() - 1 ==> spec_is_rop_gadget_head(p.1@[i], noisy))
            },
            None => !chain_to(
                sec@,
                sec.bit64(),
                sec.spec_base(),
                noisy,
                s as int,
                t as int,
                max_instr - 1,
            ),
        },
{
    let ghost b = sec@;
    let ghost gbit = sec.bit64();
    let ghost gbase = sec.spec_base();
    let bytes = sec.bytes();
    let bit64 = sec.is_64();
    let base = sec.base();
    let n = bytes.len();
    let mut offs: Vec<usize> = Vec::new();
    let mut insns: Vec<Insn> = Vec::new();
    let mut cur = s;
    while cur < t
        invariant
            sec.wf(),
            b == sec@,
            gbit == sec.bit64(),
            gbase == sec.spec_base(),
            bytes@ == b,
            bit64 == gbit,
            base == gbase,
            n == b.len(),
            1 <= max_instr,
            s <= cur <= t < b.len(),
            offs@.len() == insns@.len(),
            offs@.len() <= max_instr - 1,
            offs@.len() == 0 ==> cur == s,
            offs@.len() > 0 ==> offs@[0] == s,
            offs@.len() > 0 ==> cur == offs@[offs@.len() - 1] + insns@[insns@.len() - 1].len,
            forall|i: int| 0 <= i < offs@.len() ==> offs@[i] < t,
            forall|i: int|
                0 <= i < offs@.len() ==> insns@[i] == insn_at(b, gbit, gbase, offs@[i] as int),
            forall|i: int| 0 <= i < offs@.len() - 1 ==> offs@[i + 1] == offs@[i] + insns@[i].len,
            forall|i: int| 0 <= i < offs@.len() ==> spec_is_rop_gadget_head(insns@[i], noisy),
            chain_to(b, gbit, gbase, noisy, s as int, t as int, max_instr - 1) == chain_to(
                b,
                gbit,
                gbase,
                noisy,
                cur as int,
                t as int,
                max_instr - 1 - offs@.len(),
            ),
        decreases t - cur,
    {
        let i = decode_insn(bytes, bit64, base + (cur as u64), cur);
        let ghost fuel = max_instr - 1 - offs@.len();
        if !is_rop_gadget_head(&i, noisy) {
            proof {
                assert(!chain_to(b, gbit, gbase, noisy, cur as int, t as int, fuel));
            }
            return None;
        }
        if offs.len() == max_instr - 1 {
            proof {
                assert(fuel == 0);
                assert(!chain_to(b, gbit, gbase, noisy, cur as int, t as int, fuel));
            }
            return None;
        }
        if cur + i.len > t {
            proof {
                assert(!chain_to(b, gbit, gbase, noisy, cur as int, t as int, fuel));
            }
            return None;
        }
        proof {
            assert(chain_to(b, gbit, gbase, noisy, cur as int, t as int, fuel) == chain_to(
                b,
                gbit,
                gbase,
                noisy,
                cur + i.len,
                t as int,
                fuel - 1,
            ));
        }
        offs.push(cur);
        insns.push(i);
        cur = cur + i.len;
    }
    proof {
        assert(cur == t);
        assert(chain_to(b, gbit, gbase, noisy, t as int, t as int, max_instr - 1 - offs@.len()));
        assert(offs@.len() >= 1);
    }
    let tail_insn = decode_insn(bytes, bit64, base + (t as u64), t);
    offs.push(t);
    insns.push(tail_insn);
    Some((offs, insns))
}

/// Expand the tail at `tail` backwards: one gadget for every start offset
/// in the window whose decode lands exactly on the tail, plus the tail
/// alone. The gadget starts the result holds are exactly the legal gadget
/// starts, each occurring once.
#[verifier::spinoff_prover]
pub fn gadgets_from_tail(sec: &Section, tail: usize, max_instr: usize, noisy: bool) -> (r: Vec<
    Gadget,
>)
    requires
        sec.wf(),
        tail < sec@.len(),
        1 <= max_instr <= 255,
    ensures
        forall|k: int|
            0 <= k < r@.len() ==> gadget_ok(
                sec@,
                sec.bit64(),
                sec.spec_base(),
                noisy,
                max_instr as int,
                tail as int,
                r@[k],
            ),
        forall|s: int|
            #[trigger] spec_gadget_start(
                sec@,
                sec.bit64(),
                sec.spec_base(),
                noisy,
                max_instr as int,
                s,
                tail as int,
            ) ==> started(r@, s),
        forall|k1: int, k2: int| 0 <= k1 < k2 < r@.len() ==> r@[k1].offs@[0] != r@[k2].offs@[0],
{
    let ghost b = sec@;
    let ghost gbit = sec.bit64();
    let ghost gbase = sec.spec_base();
    let mut r: Vec<Gadget> = Vec::new();
    let lo = if tail > 15 * max_instr {
        tail - 15 * max_instr
    } else {
        0
    };
    proof {
        assert(lo == window_lo(tail as int, max_instr as int));
    }
    let mut s = lo;
    while s < tail
        invariant
            sec.wf(),
            b == sec@,
            gbit == sec.bit64(),
            gbase == sec.spec_base(),
            1 <= max_instr <= 255,
            tail < b.len(),
            lo == window_lo(tail as int, max_instr as int),
            lo <= s <= tail,
            forall|k: int|
                0 <= k < r@.len() ==> gadget_ok(
                    b,
                    gbit,
                    gbase,
                    noisy,
                    max_instr as int,
                    tail as int,
                    r@[k],
                ),
            forall|k: int| 0 <= k < r@.len() ==> lo <= #[trigger] r@[k].offs@[0] < s,
            forall|k1: int, k2: int| 0 <= k1 < k2 < r@.len() ==> r@[k1].offs@[0] != r@[k2].offs@[0],
            forall|q: int|
                lo <= q < s && #[trigger] chain_to(
                    b,
                    gbit,
                    gbase,
                    noisy,
                    q,
                    tail as int,
                    max_instr - 1,
                ) ==> started(r@, q),
        decreases tail - s,
    {
        let ghost r0 = r@;
        let found = match try_chain(sec, s, tail, max_instr, noisy) {
            Some(p) => {
                let (offs, insns) = p;
                let g = Gadget::assemble(sec, offs, insns);
                r.push(g);
                true
            },
            None => { false },
        };
        proof {
            assert(seq_prefix_of(r0, r@));
            if found {
                assert(r@[r@.len() - 1].offs@[0] == s);
            } else {
                assert(!chain_to(b, gbit, gbase, noisy, s as int, tail as int, max_instr - 1));
            }
            assert forall|q: int|
                lo <= q < s + 1 && #[trigger] chain_to(
                    b,
                    gbit,
                    gbase,
                    noisy,
                    q,
                    tail as int,
                    max_instr - 1,
                ) implies started(r@, q) by {
                if q < s {
                    lemma_started_extend(r0, r@, q);
                } else {
                    assert(r@[r@.len() - 1].offs@[0] == q);
                }
            }
        }
        s = s + 1;
    }
    let ghost r1 = r@;
    let tail_insn = decode_insn(sec.bytes(), sec.is_64(), sec.base() + (tail as u64), tail);
    let mut offs: Vec<usize> = Vec::new();
    offs.push(tail);
    let mut insns: Vec<Insn> = Vec::new();
    insns.push(tail_insn);
    let g = Gadget::assemble(sec, offs, insns);
    r.push(g);
    proof {
        assert(seq_prefix_of(r1, r@));
        assert(r@[r@.len() - 1].offs@[0] == tail);
        assert forall|s2: int|
            #[trigger] spec_gadget_start(b, gbit, gbase, noisy, max_instr as int, s2, tail as int)
                implies started(r@, s2) by {
            if s2 == tail {
                assert(r@[r@.len() - 1].offs@[0] == s2);
            } else {
                lemma_started_extend(r1, r@, s2);
            }
        }
    }
    r
}

/// Scan a whole code region: every offset is examined as a tail; every
/// legal gadget of every tail is emitted, and nothing else.
#[verifier::spinoff_prover]
pub fn scan_region(
    sec: &Section,
    rop: bool,
    sys: bool,
    jop: bool,
    noisy: bool,
    ret_thunk: Option<u64>,
    thunks: &Vec<Thunk>,
    max_instr: usize,
) -> (r: Vec<Gadget>)
    requires
        sec.wf(),
        1 <= max_instr <= 255,
    ensures
        forall|k: int|
            0 <= k < r@.len() ==> emitted_ok(
                sec@,
                sec.bit64(),
                sec.spec_base(),
                rop,
                sys,
                jop,
                noisy,
                ret_thunk,
                thunks@,
                max_instr as int,
                r@[k],
            ),
        forall|t: int, s: int|
            0 <= t < sec@.len() && spec_is_gadget_tail(
                insn_at(sec@, sec.bit64(), sec.spec_base(), t),
                rop,
                sys,
                jop,
                noisy,
                ret_thunk,
                thunks@,
            ) && #[trigger] spec_gadget_start(
                sec@,
                sec.bit64(),
                sec.spec_base(),
                noisy,
                max_instr as int,
                s,
                t,
            ) ==> covered(r@, s, t),
{
    let ghost b = sec@;
    let ghost gbit = sec.bit64();
    let ghost gbase = sec.spec_base();
    let mut r: Vec<Gadget> = Vec::new();
    let mut t: usize = 0;
    let n = sec.bytes().len();
    while t < n
        invariant
            sec.wf(),
            b == sec@,
            gbit == sec.bit64(),
            gbase == sec.spec_base(),
            1 <= max_instr <= 255,
            n == b.len(),
            0 <= t <= n,
            forall|k: int|
                0 <= k < r@.len() ==> emitted_ok(
                    b,
                    gbit,
                    gbase,
                    rop,
                    sys,
                    jop,
                    noisy,
                    ret_thunk,
                    thunks@,
                    max_instr as int,
                    r@[k],
                ),
            forall|t2: int, s2: int|
                0 <= t2 < t && spec_is_gadget_tail(
                    insn_at(b, gbit, gbase, t2),
                    rop,
                    sys,
                    jop,
                    noisy,
                    ret_thunk,
                    thunks@,
                ) && #[trigger] spec_gadget_start(
                    b,
                    gbit,
                    gbase,
                    noisy,
                    max_instr as int,
                    s2,
                    t2,
                ) ==> covered(r@, s2, t2),
        decreases n - t,
    {
        if is_tail_at(sec, t, rop, sys, jop, noisy, ret_thunk, thunks) {
            let mut sub = gadgets_from_tail(sec, t, max_instr, noisy);
            let ghost sub0 = sub@;
            while sub.len() > 0
                invariant
                    sec.wf(),
                    b == sec@,
                    gbit == sec.bit64(),
                    gbase == sec.spec_base(),
                    1 <= max_instr <= 255,
                    t < b.len(),
                    spec_is_gadget_tail(
                        insn_at(b, gbit, gbase, t as int),
                        rop,
                        sys,
                        jop,
                        noisy,
                        ret_thunk,
                        thunks@,
                    ),
                    sub@.len() <= sub0.len(),
                    forall|j: int| 0 <= j < sub@.len() ==> sub@[j] == sub0[j],
                    forall|j: int|
                        0 <= j < sub0.len() ==> gadget_ok(
                            b,
                            gbit,
                            gbase,
                            noisy,
                            max_instr as int,
                            t as int,
                            #[trigger] sub0[j],
                        ),
                    forall|j: int|
                        sub@.len() <= j < sub0.len() ==> covered(
                            r@,
                            #[trigger] sub0[j].offs@[0] as int,
                            t as int,
                        ),
                    forall|k: int|
                        0 <= k < r@.len() ==> emitted_ok(
                            b,
                            gbit,
                            gbase,
                            rop,
                            sys,
                            jop,
                            noisy,
                            ret_thunk,
                            thunks@,
                            max_instr as int,
                            r@[k],
                        ),
                    forall|t2: int, s2: int|
                        0 <= t2 < t && spec_is_gadget_tail(
                            insn_at(b, gbit, gbase, t2),
                            rop,
                            sys,
                            jop,
                            noisy,
                            ret_thunk,
                            thunks@,
                        ) && #[trigger] spec_gadget_start(
                            b,
                            gbit,
                            gbase,
                            noisy,
                            max_instr as int,
                            s2,
                            t2,
                        ) ==> covered(r@, s2, t2),
                decreases sub@.len(),
            {
                let ghost r0 = r@;
                let ghost subpre = sub@;
                let g = sub.pop().unwrap();
                r.push(g);
                proof {
                    let j = sub@.len() as int;
                    assert(seq_prefix_of(r0, r@));
                    assert(sub@ =~= subpre.drop_last());
                    assert(forall|m: int| 0 <= m < sub@.len() ==> sub@[m] == subpre[m]);
                    assert(r@[r@.len() - 1] == subpre[j]);
                    assert(subpre[j] == sub0[j]);
                    assert(gadget_ok(b, gbit, gbase, noisy, max_instr as int, t as int, sub0[j]));
                    assert(emitted_ok(
                        b,
                        gbit,
                        gbase,
                        rop,
                        sys,
                        jop,
                        noisy,
                        ret_thunk,
                        thunks@,
                        max_instr as int,
                        r@[r@.len() - 1],
                    ));
                    assert forall|j2: int| sub@.len() <= j2 < sub0.len() implies covered(
                        r@,
                        #[trigger] sub0[j2].offs@[0] as int,
                        t as int,
                    ) by {
                        if j2 == j {
                            let kk = r@.len() - 1;
                            assert(r@[kk].offs@[0] == sub0[j2].offs@[0]);
                            assert(r@[kk].offs@[r@[kk].offs@.len() - 1] == t as int);
                        } else {
                            lemma_covered_extend(r0, r@, sub0[j2].offs@[0] as int, t as int);
                        }
                    }
                    assert forall|k: int| 0 <= k < r@.len() implies emitted_ok(
                        b,
                        gbit,
                        gbase,
                        rop,
                        sys,
                        jop,
                        noisy,
                        ret_thunk,
                        thunks@,
                        max_instr as int,
                        r@[k],
                    ) by {
                        if k < r0.len() {
                            assert(r@[k] == r0[k]);
                        }
                    }
                    assert forall|t2: int, s2: int|
                        0 <= t2 < t && spec_is_gadget_tail(
                            insn_at(b, gbit, gbase, t2),
                            rop,
                            sys,
                            jop,
                            noisy,
                            ret_thunk,
                            thunks@,
                        ) && #[trigger] spec_gadget_start(
                            b,
                            gbit,
                            gbase,
                            noisy,
                            max_instr as int,
                            s2,
                            t2,
                        ) implies covered(r@, s2, t2) by {
                        lemma_covered_extend(r0, r@, s2, t2);
                    }
                }
            }
            proof {
                assert forall|t2: int, s2: int|
                    0 <= t2 < t + 1 && spec_is_gadget_tail(
                        insn_at(b, gbit, gbase, t2),
                        rop,
                        sys,
                        jop,
                        noisy,
                        ret_thunk,
                        thunks@,
                    ) && #[trigger] spec_gadget_start(
                        b,
                        gbit,
                        gbase,
                        noisy,
                        max_instr as int,
                        s2,
                        t2,
                    ) implies covered(r@, s2, t2) by {
                    if t2 == t {
                        assert(started(sub0, s2));
                        let j = choose|j: int|
                            0 <= j < sub0.len() && #[trigger] sub0[j].offs@[0] == s2;
                        assert(covered(r@, sub0[j].offs@[0] as int, t as int));
                    }
                }
            }
        }
        t = t + 1;
    }
    r
}

} // verus!
