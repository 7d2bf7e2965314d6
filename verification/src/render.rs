//! Rendering: thunk-address symbolization and the output lines.

use vstd::prelude::*;
use crate::gadget::{Gadget, B_SEMI, B_SPACE};
use crate::pipeline::{B_COLON, B_GT, B_LT};
use crate::rules::Thunk;
use crate::textutil::{fmt_hex, fmt_hex_padded, push_all, replace_all, replaced, spec_fmt_hex, spec_fmt_hex_padded};

verus! {

/// The canonical text with the return thunk's address symbolized: the
/// thunk's hex followed by the instruction terminator becomes the hex, the
/// symbol name in angle brackets, and the terminator.
pub open spec fn spec_symbolize_ret(text: Seq<u8>, ret_thunk: Option<u64>) -> Seq<u8> {
    match ret_thunk {
        Some(a) => replaced(
            text,
            spec_fmt_hex(a as int) + seq![B_SEMI],
            spec_fmt_hex(a as int) + seq![B_SPACE, B_LT] + crate::binary::return_thunk_name()
                + seq![B_GT, B_SEMI],
        ),
        None => text,
    }
}

/// The replacement for one known indirect thunk address: its hex followed
/// by the symbol name in angle brackets.
pub open spec fn thunk_replacement(a: u64, name: Seq<u8>) -> Seq<u8> {
    spec_fmt_hex(a as int) + seq![B_SPACE, B_LT] + name + seq![B_GT]
}

/// The text with every known indirect thunk address symbolized, applied in
/// table order.
pub open spec fn spec_apply_thunks(text: Seq<u8>, thunks: Seq<Thunk>) -> Seq<u8>
    decreases thunks.len(),
{
    if thunks.len() == 0 {
        text
    } else {
        let t1 = match thunks[0].addr {
            Some(a) => replaced(
                text,
                spec_fmt_hex(a as int),
                thunk_replacement(a, thunks[0].name@),
            ),
            None => text,
        };
        spec_apply_thunks(t1, thunks.skip(1))
    }
}

/// Full thunk-address symbolization: the return thunk first, then each
/// indirect thunk.
pub open spec fn spec_symbolize(text: Seq<u8>, ret_thunk: Option<u64>, thunks: Seq<Thunk>) -> Seq<
    u8,
> {
    spec_apply_thunks(spec_symbolize_ret(text, ret_thunk), thunks)
}

/// One output line: the zero-padded address, a colon and a space, and the
/// symbolized canonical text.
pub open spec fn spec_render_line(g: Gadget, ret_thunk: Option<u64>, thunks: Seq<Thunk>) -> Seq<
    u8,
> {
    spec_fmt_hex_padded(g.addr as int) + seq![B_COLON, B_SPACE] + spec_symbolize(
        g.text@,
        ret_thunk,
        thunks,
    )
}

/// Apply the return-thunk replacement; see [`spec_symbolize_ret`].
#[verifier::spinoff_prover]
fn symbolize_ret(text: &Vec<u8>, ret_thunk: Option<u64>) -> (r: Vec<u8>)
    ensures
        r@ == spec_symbolize_ret(text@, ret_thunk),
{
    match ret_thunk {
        Some(a) => {
            let mut needle = fmt_hex(a);
            needle.push(B_SEMI);
            let mut subst = fmt_hex(a);
            subst.push(B_SPACE);
            subst.push(B_LT);
            let rt = crate::binary::return_thunk_sym();
            push_all(&mut subst, &rt);
            subst.push(B_GT);
            subst.push(B_SEMI);
            proof {
                assert(needle@ =~= spec_fmt_hex(a as int) + seq![B_SEMI]);
                assert(subst@ =~= spec_fmt_hex(a as int) + seq![B_SPACE, B_LT]
                    + crate::binary::return_thunk_name() + seq![B_GT, B_SEMI]);
            }
            replace_all(text, &needle, &subst)
        },
        None => crate::gadget::copy_bytes(text),
    }
}

/// Apply one indirect thunk's replacement, when its address is known.
#[verifier::spinoff_prover]
fn apply_one_thunk(text: &Vec<u8>, t: &Thunk) -> (r: Vec<u8>)
    ensures
        r@ == match t.addr {
            Some(a) => replaced(text@, spec_fmt_hex(a as int), thunk_replacement(a, t.name@)),
            None => text@,
        },
{
    match t.addr {
        Some(a) => {
            let needle = fmt_hex(a);
            let mut subst = fmt_hex(a);
            subst.push(B_SPACE);
            subst.push(B_LT);
            push_all(&mut subst, &t.name);
            subst.push(B_GT);
            proof {
                assert(subst@ =~= thunk_replacement(a, t.name@));
            }
            replace_all(text, &needle, &subst)
        },
        None => crate::gadget::copy_bytes(text),
    }
}

/// See [`spec_symbolize`].
#[verifier::spinoff_prover]
pub fn symbolize(text: &Vec<u8>, ret_thunk: Option<u64>, thunks: &Vec<Thunk>) -> (r: Vec<u8>)
    ensures
        r@ == spec_symbolize(text@, ret_thunk, thunks@),
{
    let mut cur = symbolize_ret(text, ret_thunk);
    proof {
        assert(thunks@.skip(0) =~= thunks@);
    }
    let mut i: usize = 0;
    while i < thunks.len()
        invariant
            0 <= i <= thunks@.len(),
            spec_symbolize(text@, ret_thunk, thunks@) == spec_apply_thunks(
                cur@,
                thunks@.skip(i as int),
            ),
        decreases thunks@.len() - i,
    {
        let ghost rest = thunks@.skip(i as int);
        proof {
            assert(rest[0] == thunks@[i as int]);
            assert(rest.skip(1) =~= thunks@.skip(i + 1));
        }
        let next = apply_one_thunk(&cur, &thunks[i]);
        cur = next;
        i = i + 1;
    }
    proof {
        assert(thunks@.skip(thunks@.len() as int) =~= Seq::<Thunk>::empty());
    }
    cur
}

/// Render each gadget to its output line; see [`spec_render_line`].
#[verifier::spinoff_prover]
pub fn render_gadgets(gs: &Vec<Gadget>, ret_thunk: Option<u64>, thunks: &Vec<Thunk>) -> (r: Vec<
    Vec<u8>,
>)
    ensures
        r@.len() == gs@.len(),
        forall|k: int|
            0 <= k < gs@.len() ==> (#[trigger] r@[k])@ == spec_render_line(
                gs@[k],
                ret_thunk,
                thunks@,
            ),
{
    let mut r: Vec<Vec<u8>> = Vec::new();
    let mut k: usize = 0;
    while k < gs.len()
        invariant
            0 <= k <= gs@.len(),
            r@.len() == k,
            forall|k2: int|
                0 <= k2 < k ==> (#[trigger] r@[k2])@ == spec_render_line(
                    gs@[k2],
                    ret_thunk,
                    thunks@,
                ),
        decreases gs@.len() - k,
    {
        let mut line = fmt_hex_padded(gs[k].addr);
        line.push(B_COLON);
        line.push(B_SPACE);
        let sym = symbolize(&gs[k].text, ret_thunk, thunks);
        push_all(&mut line, &sym);
        proof {
            assert(line@ =~= spec_render_line(gs@[k as int], ret_thunk, thunks@));
        }
        r.push(line);
        k = k + 1;
    }
    r
}

} // verus!
