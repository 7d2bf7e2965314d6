//! The filter / dedup / sort / format stage.
//!
//! Applied in the pipeline's order: address-range filter, deduplication by
//! canonical text (lowest address wins), the regex, pivot and NOP-prefix
//! filters, ordering by address or by text, and rendering with
//! thunk-address symbolization.

use vstd::prelude::*;
use crate::gadget::{Gadget, B_SEMI, B_SPACE};
use crate::insn::M_NOP;
use crate::rules::Thunk;
use crate::textutil::{
    bytes_eq, bytes_le, lex_le, lemma_lex_le_total, lemma_lex_le_trans, parse_range, push_all,
    replace_all, replaced, spec_fmt_hex, spec_fmt_hex_padded, spec_parse_range, fmt_hex,
    fmt_hex_padded,
};

verus! {

/// ASCII `:`.
pub const B_COLON: u8 = 58;
/// ASCII `<`.
pub const B_LT: u8 = 60;
/// ASCII `>`.
pub const B_GT: u8 = 62;
/// regex::bytes::Regex, opaque to the verifier.
#[verifier::external_type_specification]
#[verifier::external_body]
pub struct ExRegex(regex::bytes::Regex);

/// Whether `pat` is a valid regular expression: what `Regex::new` decides,
/// a function of the pattern alone.
pub uninterp spec fn regex_valid(pat: Seq<char>) -> bool;

/// Whether the regular expression `pat` matches somewhere in `text`: what
/// `Regex::is_match` decides, a function of pattern and text alone.
pub uninterp spec fn regex_match(pat: Seq<char>, text: Seq<u8>) -> bool;

/// A compiled regular expression together with the pattern it was compiled
/// from. Built only by [`Matcher::new`], so the two fields always belong
/// together.
pub struct Matcher {
    pat: String,
    re: regex::bytes::Regex,
}

impl Matcher {
    /// The pattern this matcher was compiled from.
    pub closed spec fn spec_pat(&self) -> Seq<char> {
        self.pat@
    }

    /// Relies on regex::bytes::Regex::new: compiling is deterministic in
    /// the pattern.
    #[verifier::external_body]
    fn compile(pat: &str) -> (r: Option<regex::bytes::Regex>)
        ensures
            r is Some <==> regex_valid(pat@),
    {
        regex::bytes::Regex::new(pat).ok()
    }

    /// Compile a pattern; fails exactly on an invalid pattern.
    pub fn new(pat: &str) -> (r: Option<Matcher>)
        ensures
            r is Some <==> regex_valid(pat@),
            r is Some ==> r->0.spec_pat() == pat@,
    {
        match Self::compile(pat) {
            Some(re) => Some(Matcher { pat: pat.to_owned(), re }),
            None => None,
        }
    }

    /// Relies on regex::bytes::Regex::is_match: the verdict is a function
    /// of the compiled pattern and the text; `self.re` was compiled from
    /// `self.pat` by [`Matcher::new`], the only constructor.
    #[verifier::external_body]
    pub fn is_match(&self, text: &Vec<u8>) -> (r: bool)
        ensures
            r == regex_match(self.spec_pat(), text@),
    {
        self.re.is_match(text)
    }
}

/// Compile each pattern; the first invalid one fails the whole set, with
/// its index.
pub fn compile_matchers(pats: &Vec<String>) -> (r: Result<Vec<Matcher>, usize>)
    ensures
        match r {
            Ok(ms) => {
                &&& ms@.len() == pats@.len()
                &&& forall|i: int| 0 <= i < ms@.len() ==> (#[trigger] ms@[i].spec_pat())
                    == pats@[i]@
            },
            Err(i) => 0 <= i < pats@.len() && !regex_valid(pats@[i as int]@),
        },
{
    let mut ms: Vec<Matcher> = Vec::new();
    let mut i: usize = 0;
    while i < pats.len()
        invariant
            0 <= i <= pats@.len(),
            ms@.len() == i,
            forall|j: int| 0 <= j < i ==> (#[trigger] ms@[j].spec_pat()) == pats@[j]@,
        decreases pats@.len() - i,
    {
        match Matcher::new(pats[i].as_str()) {
            Some(m) => {
                ms.push(m);
            },
            None => {
                return Err(i);
            },
        }
        i = i + 1;
    }
    Ok(ms)
}

/// The address lies in one of the inclusive ranges, or no ranges are given.
pub open spec fn spec_in_ranges(addr: u64, ranges: Seq<(u64, u64)>) -> bool {
    ||| ranges.len() == 0
    ||| exists|k: int| 0 <= k < ranges.len() && (#[trigger] ranges[k]).0 <= addr <= ranges[k].1
}

/// See [`spec_in_ranges`].
pub fn in_ranges(addr: u64, ranges: &Vec<(u64, u64)>) -> (r: bool)
    ensures
        r == spec_in_ranges(addr, ranges@),
{
    if ranges.len() == 0 {
        return true;
    }
    let mut k: usize = 0;
    while k < ranges.len()
        invariant
            0 <= k <= ranges@.len(),
            forall|j: int| 0 <= j < k ==> !((#[trigger] ranges@[j]).0 <= addr <= ranges@[j].1),
        decreases ranges@.len() - k,
    {
        let (from, to) = ranges[k];
        if from <= addr && addr <= to {
            proof {
                assert((ranges@[k as int]).0 <= addr <= ranges@[k as int].1);
            }
            return true;
        }
        k = k + 1;
    }
    false
}

/// What parsing the range arguments yields: each well-formed `from-to`
/// argument in order; malformed ones are dropped, as the original command
/// line does.
pub open spec fn spec_parse_ranges(args: Seq<Vec<u8>>) -> Seq<(u64, u64)>
    decreases args.len(),
{
    if args.len() == 0 {
        Seq::empty()
    } else {
        let rest = spec_parse_ranges(args.drop_last());
        match spec_parse_range(args.last()@) {
            Some(p) => rest.push(p),
            None => rest,
        }
    }
}

/// See [`spec_parse_ranges`].
pub fn parse_ranges(args: &Vec<Vec<u8>>) -> (r: Vec<(u64, u64)>)
    ensures
        r@ == spec_parse_ranges(args@),
{
    let mut r: Vec<(u64, u64)> = Vec::new();
    let mut i: usize = 0;
    while i < args.len()
        invariant
            0 <= i <= args@.len(),
            r@ == spec_parse_ranges(args@.subrange(0, i as int)),
        decreases args@.len() - i,
    {
        proof {
            assert(args@.subrange(0, i + 1).drop_last() =~= args@.subrange(0, i as int));
            assert(args@.subrange(0, i + 1).last() == args@[i as int]);
        }
        match parse_range(&args[i]) {
            Some(p) => {
                r.push(p);
            },
            None => {},
        }
        i = i + 1;
    }
    proof {
        assert(args@.subrange(0, args@.len() as int) =~= args@);
    }
    r
}

/// A filter loop's state: `r` holds exactly the gadgets from `from` on
/// that satisfy `p`.
pub open spec fn sel_inv(
    gs0: Seq<Gadget>,
    from: int,
    p: spec_fn(Gadget) -> bool,
    r: Seq<Gadget>,
) -> bool {
    &&& (forall|k: int|
        0 <= k < r.len() ==> p(#[trigger] r[k]) && exists|j: int|
            0 <= j < gs0.len() && gs0[j] == r[k])
    &&& (forall|j: int|
        from <= j < gs0.len() && p(#[trigger] gs0[j]) ==> exists|k: int|
            0 <= k < r.len() && r[k] == gs0[j])
}

/// Taking in a gadget that satisfies the filter: push it.
proof fn lemma_sel_keep(
    gs0: Seq<Gadget>,
    j: int,
    p: spec_fn(Gadget) -> bool,
    r0: Seq<Gadget>,
    g: Gadget,
)
    requires
        sel_inv(gs0, j + 1, p, r0),
        0 <= j < gs0.len(),
        g == gs0[j],
        p(g),
    ensures
        sel_inv(gs0, j, p, r0.push(g)),
{
    let r2 = r0.push(g);
    assert(r2[r0.len() as int] == g);
    assert(forall|k: int| 0 <= k < r0.len() ==> r2[k] == r0[k]);
    assert forall|k: int| 0 <= k < r2.len() implies p(#[trigger] r2[k]) && exists|j2: int|
        0 <= j2 < gs0.len() && gs0[j2] == r2[k] by {
        if k < r0.len() {
            let jw = choose|j2: int| 0 <= j2 < gs0.len() && gs0[j2] == r0[k];
            assert(gs0[jw] == r2[k]);
        } else {
            assert(gs0[j] == r2[k]);
        }
    }
    assert forall|j2: int| j <= j2 < gs0.len() && p(#[trigger] gs0[j2]) implies exists|k: int|
        0 <= k < r2.len() && r2[k] == gs0[j2] by {
        if j2 == j {
            assert(r2[r2.len() - 1] == gs0[j2]);
        } else {
            let kw = choose|k: int| 0 <= k < r0.len() && r0[k] == gs0[j2];
            assert(r2[kw] == gs0[j2]);
        }
    }
}

/// Taking in a gadget that fails the filter: drop it.
proof fn lemma_sel_skip(
    gs0: Seq<Gadget>,
    j: int,
    p: spec_fn(Gadget) -> bool,
    r0: Seq<Gadget>,
    g: Gadget,
)
    requires
        sel_inv(gs0, j + 1, p, r0),
        0 <= j < gs0.len(),
        g == gs0[j],
        !p(g),
    ensures
        sel_inv(gs0, j, p, r0),
{
    assert forall|j2: int| j <= j2 < gs0.len() && p(#[trigger] gs0[j2]) implies exists|k: int|
        0 <= k < r0.len() && r0[k] == gs0[j2] by {
        assert(j2 != j);
    }
}

/// A permutation of a list that satisfies a selection invariant satisfies
/// it too: the invariant only speaks of membership.
#[verifier::spinoff_prover]
proof fn lemma_sel_inv_perm(
    gs0: Seq<Gadget>,
    p: spec_fn(Gadget) -> bool,
    a: Seq<Gadget>,
    b: Seq<Gadget>,
)
    requires
        sel_inv(gs0, 0, p, a),
        a.to_multiset() == b.to_multiset(),
    ensures
        sel_inv(gs0, 0, p, b),
{
    broadcast use vstd::seq_lib::group_to_multiset_ensures;
    broadcast use vstd::multiset::group_multiset_axioms;

    assert forall|k: int| 0 <= k < b.len() implies p(#[trigger] b[k]) && exists|j: int|
        0 <= j < gs0.len() && gs0[j] == b[k] by {
        assert(b.contains(b[k])) by {
            assert(b[k] == b[k]);
        }
        assert(a.to_multiset().count(b[k]) > 0);
        assert(a.contains(b[k]));
        let kw = choose|kw: int| 0 <= kw < a.len() && a[kw] == b[k];
        assert(p(a[kw]));
        let jw = choose|j: int| 0 <= j < gs0.len() && gs0[j] == a[kw];
        assert(gs0[jw] == b[k]);
    }
    assert forall|j: int| 0 <= j < gs0.len() && p(#[trigger] gs0[j]) implies exists|k: int|
        0 <= k < b.len() && b[k] == gs0[j] by {
        let kw = choose|k: int| 0 <= k < a.len() && a[k] == gs0[j];
        assert(a.contains(gs0[j])) by {
            assert(a[kw] == gs0[j]);
        }
        assert(b.to_multiset().count(gs0[j]) > 0);
        assert(b.contains(gs0[j]));
        let k = choose|k: int| 0 <= k < b.len() && b[k] == gs0[j];
        assert(b[k] == gs0[j]);
    }
}

/// The range filter as a predicate on one gadget.
pub open spec fn range_pred(ranges: Seq<(u64, u64)>) -> spec_fn(Gadget) -> bool {
    |g: Gadget| spec_in_ranges(g.addr, ranges)
}

/// Keep only gadgets whose absolute address lies in one of the ranges (an
/// empty range set accepts everything): every survivor is an input that
/// passes, every passing input survives ([`sel_inv`]), and the survivors'
/// multiplicities are exactly the passing inputs' multiplicities.
#[verifier::spinoff_prover]
pub fn filter_ranges(gs: Vec<Gadget>, ranges: &Vec<(u64, u64)>) -> (r: Vec<Gadget>)
    ensures
        sel_inv(gs@, 0, range_pred(ranges@), r@),
        r@.to_multiset() == gs@.to_multiset().filter(range_pred(ranges@)),
{
    let mut input = gs;
    let ghost gs0 = input@;
    let ghost p = range_pred(ranges@);
    let mut r: Vec<Gadget> = Vec::new();
    proof {
        broadcast use vstd::seq_lib::group_to_multiset_ensures;
        broadcast use vstd::multiset::group_multiset_axioms;

        assert(r@.to_multiset().add(input@.to_multiset().filter(p)) =~= gs0.to_multiset().filter(
            p,
        ));
    }
    while input.len() > 0
        invariant
            input@.len() <= gs0.len(),
            forall|j: int| 0 <= j < input@.len() ==> input@[j] == gs0[j],
            p == range_pred(ranges@),
            sel_inv(gs0, input@.len() as int, p, r@),
            r@.to_multiset().add(input@.to_multiset().filter(p)) == gs0.to_multiset().filter(p),
        decreases input@.len(),
    {
        let ghost r0 = r@;
        let ghost in0 = input@;
        let g = input.pop().unwrap();
        let ghost j = input@.len() as int;
        proof {
            broadcast use vstd::seq_lib::group_to_multiset_ensures;
            broadcast use vstd::multiset::group_multiset_axioms;

            assert(g == gs0[j]);
            assert(in0 =~= input@.push(g));
            assert(input@.push(g).to_multiset() =~= input@.to_multiset().insert(g));
        }
        if in_ranges(g.addr, ranges) {
            proof {
                broadcast use vstd::seq_lib::group_to_multiset_ensures;
                broadcast use vstd::multiset::group_multiset_axioms;

                assert(p(g));
                lemma_sel_keep(gs0, j, p, r0, g);
                assert(r0.push(g).to_multiset() =~= r0.to_multiset().insert(g));
            }
            r.push(g);
            proof {
                broadcast use vstd::multiset::group_multiset_axioms;

                assert(r@.to_multiset().add(input@.to_multiset().filter(p))
                    =~= gs0.to_multiset().filter(p));
            }
        } else {
            proof {
                broadcast use vstd::multiset::group_multiset_axioms;

                assert(!p(g));
                lemma_sel_skip(gs0, j, p, r0, g);
                assert(r@.to_multiset().add(input@.to_multiset().filter(p))
                    =~= gs0.to_multiset().filter(p));
            }
        }
    }
    proof {
        broadcast use vstd::seq_lib::group_to_multiset_ensures;
        broadcast use vstd::multiset::group_multiset_axioms;

        assert(r@.to_multiset() =~= gs0.to_multiset().filter(p));
    }
    r
}

/// The address is the lowest among the gadgets of `gs` that share the text.
pub open spec fn min_addr_for(gs: Seq<Gadget>, text: Seq<u8>, addr: u64) -> bool {
    forall|j: int| 0 <= j < gs.len() && (#[trigger] gs[j]).text@ == text ==> addr <= gs[j].addr
}

/// Index of the first entry with this text, or the length when none has it.
fn find_text(r: &Vec<Gadget>, text: &Vec<u8>) -> (res: usize)
    ensures
        res <= r@.len(),
        res < r@.len() ==> r@[res as int].text@ == text@,
        res == r@.len() ==> forall|k: int| 0 <= k < r@.len() ==> (#[trigger] r@[k]).text@ != text@,
{
    let mut k: usize = 0;
    while k < r.len()
        invariant
            0 <= k <= r@.len(),
            forall|k2: int| 0 <= k2 < k ==> (#[trigger] r@[k2]).text@ != text@,
        decreases r@.len() - k,
    {
        if bytes_eq(&r[k].text, text) {
            return k;
        }
        k = k + 1;
    }
    k
}

/// The dedup loop's state: `r` holds one gadget per distinct text among
/// the inputs from `from` on, each an input gadget with the lowest address
/// for its text among those inputs.
pub open spec fn dedup_inv(gs0: Seq<Gadget>, from: int, r: Seq<Gadget>) -> bool {
    &&& (forall|k1: int, k2: int| 0 <= k1 < k2 < r.len() ==> r[k1].text@ != r[k2].text@)
    &&& (forall|k: int|
        0 <= k < r.len() ==> exists|j: int| from <= j < gs0.len() && gs0[j] == #[trigger] r[k])
    &&& (forall|k: int, j: int|
        0 <= k < r.len() && from <= j < gs0.len() && (#[trigger] gs0[j]).text@ == (#[trigger] r[
            k
        ]).text@ ==> r[k].addr <= gs0[j].addr)
    &&& (forall|j: int|
        from <= j < gs0.len() ==> exists|k: int|
            0 <= k < r.len() && (#[trigger] r[k].text@) == (#[trigger] gs0[j]).text@)
}

/// Taking in a gadget whose text is new: push it.
#[verifier::rlimit(100)]
#[verifier::spinoff_prover]
proof fn lemma_dedup_push(gs0: Seq<Gadget>, j: int, r0: Seq<Gadget>, g: Gadget)
    requires
        dedup_inv(gs0, j + 1, r0),
        0 <= j < gs0.len(),
        g == gs0[j],
        forall|k: int| 0 <= k < r0.len() ==> (#[trigger] r0[k]).text@ != g.text@,
    ensures
        dedup_inv(gs0, j, r0.push(g)),
{
    let r2 = r0.push(g);
    assert(r2[r0.len() as int] == g);
    assert(forall|k: int| 0 <= k < r0.len() ==> r2[k] == r0[k]);
    assert forall|k: int| 0 <= k < r2.len() implies exists|j2: int|
        j <= j2 < gs0.len() && gs0[j2] == #[trigger] r2[k] by {
        if k < r0.len() {
            let jw = choose|j2: int| j + 1 <= j2 < gs0.len() && gs0[j2] == r0[k];
            assert(gs0[jw] == r2[k]);
        } else {
            assert(gs0[j] == r2[k]);
        }
    }
    assert forall|k: int, j2: int|
        0 <= k < r2.len() && j <= j2 < gs0.len() && (#[trigger] gs0[j2]).text@ == (#[trigger] r2[
            k
        ]).text@ implies r2[k].addr <= gs0[j2].addr by {
        if k < r0.len() {
            if j2 == j {
                assert(r0[k].text@ != g.text@);
                assert(false);
            }
        } else {
            if j2 != j {
                // a later input with g's text would already be represented
                let kw = choose|k2: int|
                    0 <= k2 < r0.len() && (#[trigger] r0[k2].text@) == gs0[j2].text@;
                assert(r0[kw].text@ == g.text@);
                assert(false);
            }
        }
    }
    assert forall|j2: int| j <= j2 < gs0.len() implies exists|k: int|
        0 <= k < r2.len() && (#[trigger] r2[k].text@) == (#[trigger] gs0[j2]).text@ by {
        if j2 == j {
            assert(r2[r2.len() - 1].text@ == gs0[j2].text@);
        } else {
            let kw = choose|k2: int|
                0 <= k2 < r0.len() && (#[trigger] r0[k2].text@) == gs0[j2].text@;
            assert(r2[kw].text@ == gs0[j2].text@);
        }
    }
}

/// Taking in a gadget whose text is already held at `kh`, at a strictly
/// lower address: the newcomer replaces the holder.
#[verifier::rlimit(100)]
#[verifier::spinoff_prover]
proof fn lemma_dedup_replace(gs0: Seq<Gadget>, j: int, r0: Seq<Gadget>, g: Gadget, kh: int)
    requires
        dedup_inv(gs0, j + 1, r0),
        0 <= j < gs0.len(),
        g == gs0[j],
        0 <= kh < r0.len(),
        r0[kh].text@ == g.text@,
        g.addr < r0[kh].addr,
    ensures
        dedup_inv(gs0, j, r0.remove(kh).push(g)),
{
    let r2 = r0.remove(kh).push(g);
    assert(r2.len() == r0.len());
    assert(forall|k: int| 0 <= k < kh ==> r2[k] == r0[k]);
    assert(forall|k: int| kh <= k < r0.len() - 1 ==> r2[k] == r0[k + 1]);
    assert(r2[r2.len() - 1] == g);
    assert forall|k1: int, k2: int| 0 <= k1 < k2 < r2.len() implies r2[k1].text@ != r2[k2].text@ by {
        lemma_remove_push_distinct(r0, r2, kh, g, k1, k2);
    }
    assert forall|k: int| 0 <= k < r2.len() implies exists|j2: int|
        j <= j2 < gs0.len() && gs0[j2] == #[trigger] r2[k] by {
        if k == r2.len() - 1 {
            assert(gs0[j] == r2[k]);
        } else {
            let korig: int = if k < kh {
                k
            } else {
                k + 1
            };
            assert(r2[k] == r0[korig]);
            let jw = choose|j2: int| j + 1 <= j2 < gs0.len() && gs0[j2] == r0[korig];
            assert(gs0[jw] == r2[k]);
        }
    }
    assert forall|k: int, j2: int|
        0 <= k < r2.len() && j <= j2 < gs0.len() && (#[trigger] gs0[j2]).text@ == (#[trigger] r2[
            k
        ]).text@ implies r2[k].addr <= gs0[j2].addr by {
        if k == r2.len() - 1 {
            if j2 > j {
                assert(r0[kh].addr <= gs0[j2].addr);
            }
        } else {
            let korig: int = if k < kh {
                k
            } else {
                k + 1
            };
            assert(r2[k] == r0[korig]);
            if j2 == j {
                assert(r0[korig].text@ != r0[kh].text@);
                assert(false);
            }
        }
    }
    assert forall|j2: int| j <= j2 < gs0.len() implies exists|k: int|
        0 <= k < r2.len() && (#[trigger] r2[k].text@) == (#[trigger] gs0[j2]).text@ by {
        if j2 == j {
            assert(r2[r2.len() - 1].text@ == gs0[j2].text@);
        } else {
            let kw = choose|k2: int|
                0 <= k2 < r0.len() && (#[trigger] r0[k2].text@) == gs0[j2].text@;
            if kw == kh {
                assert(r2[r2.len() - 1].text@ == g.text@);
            } else if kw < kh {
                assert(r2[kw].text@ == gs0[j2].text@);
            } else {
                assert(r2[kw - 1].text@ == gs0[j2].text@);
            }
        }
    }
}

/// Taking in a gadget whose text is already held at `kh`, at no lower an
/// address: nothing changes.
#[verifier::rlimit(100)]
#[verifier::spinoff_prover]
proof fn lemma_dedup_keep(gs0: Seq<Gadget>, j: int, r0: Seq<Gadget>, g: Gadget, kh: int)
    requires
        dedup_inv(gs0, j + 1, r0),
        0 <= j < gs0.len(),
        g == gs0[j],
        0 <= kh < r0.len(),
        r0[kh].text@ == g.text@,
        g.addr >= r0[kh].addr,
    ensures
        dedup_inv(gs0, j, r0),
{
    assert forall|k: int| 0 <= k < r0.len() implies exists|j2: int|
        j <= j2 < gs0.len() && gs0[j2] == #[trigger] r0[k] by {
        let jw = choose|j2: int| j + 1 <= j2 < gs0.len() && gs0[j2] == r0[k];
        assert(gs0[jw] == r0[k]);
    }
    assert forall|k: int, j2: int|
        0 <= k < r0.len() && j <= j2 < gs0.len() && (#[trigger] gs0[j2]).text@ == (#[trigger] r0[
            k
        ]).text@ implies r0[k].addr <= gs0[j2].addr by {
        if j2 == j && k != kh {
            if k < kh {
                assert(r0[k].text@ != r0[kh].text@);
            } else {
                assert(r0[kh].text@ != r0[k].text@);
            }
            assert(false);
        }
        if j2 == j && k == kh {
            assert(r0[kh].addr <= g.addr);
        }
    }
    assert forall|j2: int| j <= j2 < gs0.len() implies exists|k: int|
        0 <= k < r0.len() && (#[trigger] r0[k].text@) == (#[trigger] gs0[j2]).text@ by {
        if j2 == j {
            assert(r0[kh].text@ == gs0[j2].text@);
        } else {
            let kw = choose|k2: int|
                0 <= k2 < r0.len() && (#[trigger] r0[k2].text@) == gs0[j2].text@;
            assert(r0[kw].text@ == gs0[j2].text@);
        }
    }
}

/// After removing index `kh` (whose text equals `g`'s) from a list of
/// pairwise-distinct texts and pushing `g`, the texts stay pairwise
/// distinct.
proof fn lemma_remove_push_distinct(
    r0: Seq<Gadget>,
    r2: Seq<Gadget>,
    kh: int,
    g: Gadget,
    k1: int,
    k2: int,
)
    requires
        0 <= kh < r0.len(),
        r2 =~= r0.remove(kh).push(g),
        g.text@ == r0[kh].text@,
        forall|a: int, b: int| 0 <= a < b < r0.len() ==> r0[a].text@ != r0[b].text@,
        0 <= k1 < k2 < r2.len(),
    ensures
        r2[k1].text@ != r2[k2].text@,
{
    let o1: int = if k1 < kh {
        k1
    } else {
        k1 + 1
    };
    if k2 == r2.len() - 1 {
        assert(r2[k1] == r0[o1]);
        if o1 < kh {
            assert(r0[o1].text@ != r0[kh].text@);
        } else {
            assert(r0[kh].text@ != r0[o1].text@);
        }
    } else {
        let o2: int = if k2 < kh {
            k2
        } else {
            k2 + 1
        };
        assert(r2[k1] == r0[o1]);
        assert(r2[k2] == r0[o2]);
        assert(o1 < o2);
    }
}

/// Deduplicate by canonical text, keeping for each text the gadget with
/// the lowest address: the output's texts are pairwise distinct, every
/// output is an input whose address is minimal for its text, and every
/// input text is represented; see [`dedup_inv`].
#[verifier::rlimit(100)]
#[verifier::spinoff_prover]
pub fn dedup_gadgets(gs: Vec<Gadget>) -> (r: Vec<Gadget>)
    ensures
        dedup_inv(gs@, 0, r@),
        forall|k: int|
            0 <= k < r@.len() ==> min_addr_for(gs@, (#[trigger] r@[k]).text@, r@[k].addr),
{
    let mut input = gs;
    let ghost gs0 = input@;
    let mut r: Vec<Gadget> = Vec::new();
    while input.len() > 0
        invariant
            input@.len() <= gs0.len(),
            forall|j: int| 0 <= j < input@.len() ==> input@[j] == gs0[j],
            dedup_inv(gs0, input@.len() as int, r@),
        decreases input@.len(),
    {
        let ghost r0 = r@;
        let g = input.pop().unwrap();
        let ghost j = input@.len() as int;
        proof {
            assert(g == gs0[j]);
        }
        let hit = find_text(&r, &g.text);
        if hit == r.len() {
            proof {
                lemma_dedup_push(gs0, j, r0, g);
            }
            r.push(g);
        } else {
            let ghost kh = hit as int;
            if g.addr < r[hit].addr {
                proof {
                    lemma_dedup_replace(gs0, j, r0, g, kh);
                }
                let _old = r.remove(hit);
                r.push(g);
                proof {
                    assert(r@ =~= r0.remove(kh).push(g));
                }
            } else {
                proof {
                    lemma_dedup_keep(gs0, j, r0, g, kh);
                }
            }
        }
    }
    proof {
        assert forall|k: int| 0 <= k < r@.len() implies min_addr_for(
            gs0,
            (#[trigger] r@[k]).text@,
            r@[k].addr,
        ) by {
            assert forall|j2: int|
                0 <= j2 < gs0.len() && (#[trigger] gs0[j2]).text@ == r@[k].text@ implies r@[
                k
            ].addr <= gs0[j2].addr by {}
        }
    }
    r
}

/// One law of deduplication on its own: with dedup on, for any two gadgets
/// with identical canonical text, the surviving address is the minimum.
pub proof fn lemma_dedup_lowest_wins(gs: Seq<Gadget>, r: Seq<Gadget>, k: int, j: int)
    requires
        forall|k2: int|
            0 <= k2 < r.len() ==> min_addr_for(gs, (#[trigger] r[k2]).text@, r[k2].addr),
        0 <= k < r.len(),
        0 <= j < gs.len(),
        gs[j].text@ == r[k].text@,
    ensures
        r[k].addr <= gs[j].addr,
{
}

/// The regex / pivot / NOP-prefix filters on one gadget: every positive
/// pattern matches the canonical text, no negative pattern matches, the
/// pivot filters hold where requested, and a NOP-headed gadget is dropped
/// when trimming.
pub open spec fn spec_keep(
    g: Gadget,
    pos: Seq<Matcher>,
    neg: Seq<Matcher>,
    stack_pivot: bool,
    base_pivot: bool,
    trim_nops: bool,
    ret_thunk: Option<u64>,
) -> bool {
    &&& (forall|i: int| 0 <= i < pos.len() ==> regex_match((#[trigger] pos[i]).spec_pat(), g.text@))
    &&& !(exists|i: int| 0 <= i < neg.len() && regex_match((#[trigger] neg[i]).spec_pat(), g.text@))
    &&& (!stack_pivot || g.spec_is_stack_pivot(ret_thunk))
    &&& (!base_pivot || g.spec_is_base_pivot())
    &&& (!trim_nops || g.insns@[0].mnemonic != M_NOP)
}

/// [`spec_keep`] as a predicate on one gadget.
pub open spec fn keep_pred(
    pos: Seq<Matcher>,
    neg: Seq<Matcher>,
    stack_pivot: bool,
    base_pivot: bool,
    trim_nops: bool,
    ret_thunk: Option<u64>,
) -> spec_fn(Gadget) -> bool {
    |g: Gadget| spec_keep(g, pos, neg, stack_pivot, base_pivot, trim_nops, ret_thunk)
}

/// Every matcher matches the text.
fn all_match(ms: &Vec<Matcher>, text: &Vec<u8>) -> (r: bool)
    ensures
        r == forall|i: int|
            0 <= i < ms@.len() ==> regex_match((#[trigger] ms@[i]).spec_pat(), text@),
{
    let mut i: usize = 0;
    while i < ms.len()
        invariant
            0 <= i <= ms@.len(),
            forall|j: int| 0 <= j < i ==> regex_match((#[trigger] ms@[j]).spec_pat(), text@),
        decreases ms@.len() - i,
    {
        if !ms[i].is_match(text) {
            return false;
        }
        i = i + 1;
    }
    true
}

/// Some matcher matches the text.
fn any_match(ms: &Vec<Matcher>, text: &Vec<u8>) -> (r: bool)
    ensures
        r == exists|i: int|
            0 <= i < ms@.len() && regex_match((#[trigger] ms@[i]).spec_pat(), text@),
{
    let mut i: usize = 0;
    while i < ms.len()
        invariant
            0 <= i <= ms@.len(),
            forall|j: int| 0 <= j < i ==> !regex_match((#[trigger] ms@[j]).spec_pat(), text@),
        decreases ms@.len() - i,
    {
        if ms[i].is_match(text) {
            proof {
                assert(regex_match(ms@[i as int].spec_pat(), text@));
            }
            return true;
        }
        i = i + 1;
    }
    false
}

/// See [`spec_keep`].
pub fn keep_gadget(
    g: &Gadget,
    pos: &Vec<Matcher>,
    neg: &Vec<Matcher>,
    stack_pivot: bool,
    base_pivot: bool,
    trim_nops: bool,
    ret_thunk: Option<u64>,
) -> (r: bool)
    requires
        g.insns@.len() >= 1,
    ensures
        r == spec_keep(*g, pos@, neg@, stack_pivot, base_pivot, trim_nops, ret_thunk),
{
    if !all_match(pos, &g.text) {
        return false;
    }
    if any_match(neg, &g.text) {
        return false;
    }
    if stack_pivot && !g.is_stack_pivot(ret_thunk) {
        return false;
    }
    if base_pivot && !g.is_base_pivot() {
        return false;
    }
    if trim_nops && g.insns[0].mnemonic == M_NOP {
        return false;
    }
    true
}

/// Apply the regex, pivot and NOP-prefix filters: the output holds exactly
/// the inputs that pass all of them, with their input multiplicities; see
/// [`sel_inv`].
#[verifier::spinoff_prover]
pub fn filter_keep(
    gs: Vec<Gadget>,
    pos: &Vec<Matcher>,
    neg: &Vec<Matcher>,
    stack_pivot: bool,
    base_pivot: bool,
    trim_nops: bool,
    ret_thunk: Option<u64>,
) -> (r: Vec<Gadget>)
    requires
        forall|k: int| 0 <= k < gs@.len() ==> (#[trigger] gs@[k]).insns@.len() >= 1,
    ensures
        sel_inv(gs@, 0, keep_pred(pos@, neg@, stack_pivot, base_pivot, trim_nops, ret_thunk), r@),
        r@.to_multiset() == gs@.to_multiset().filter(
            keep_pred(pos@, neg@, stack_pivot, base_pivot, trim_nops, ret_thunk),
        ),
{
    let mut input = gs;
    let ghost gs0 = input@;
    let ghost p = keep_pred(pos@, neg@, stack_pivot, base_pivot, trim_nops, ret_thunk);
    let mut r: Vec<Gadget> = Vec::new();
    proof {
        broadcast use vstd::seq_lib::group_to_multiset_ensures;
        broadcast use vstd::multiset::group_multiset_axioms;

        assert(r@.to_multiset().add(input@.to_multiset().filter(p)) =~= gs0.to_multiset().filter(
            p,
        ));
    }
    while input.len() > 0
        invariant
            input@.len() <= gs0.len(),
            forall|j: int| 0 <= j < input@.len() ==> input@[j] == gs0[j],
            forall|k: int| 0 <= k < gs0.len() ==> (#[trigger] gs0[k]).insns@.len() >= 1,
            p == keep_pred(pos@, neg@, stack_pivot, base_pivot, trim_nops, ret_thunk),
            sel_inv(gs0, input@.len() as int, p, r@),
            r@.to_multiset().add(input@.to_multiset().filter(p)) == gs0.to_multiset().filter(p),
        decreases input@.len(),
    {
        let ghost r0 = r@;
        let ghost in0 = input@;
        let g = input.pop().unwrap();
        let ghost j = input@.len() as int;
        proof {
            broadcast use vstd::seq_lib::group_to_multiset_ensures;
            broadcast use vstd::multiset::group_multiset_axioms;

            assert(g == gs0[j]);
            assert(in0 =~= input@.push(g));
            assert(input@.push(g).to_multiset() =~= input@.to_multiset().insert(g));
        }
        if keep_gadget(&g, pos, neg, stack_pivot, base_pivot, trim_nops, ret_thunk) {
            proof {
                broadcast use vstd::seq_lib::group_to_multiset_ensures;
                broadcast use vstd::multiset::group_multiset_axioms;

                assert(p(g));
                lemma_sel_keep(gs0, j, p, r0, g);
                assert(r0.push(g).to_multiset() =~= r0.to_multiset().insert(g));
            }
            r.push(g);
            proof {
                broadcast use vstd::multiset::group_multiset_axioms;

                assert(r@.to_multiset().add(input@.to_multiset().filter(p))
                    =~= gs0.to_multiset().filter(p));
            }
        } else {
            proof {
                broadcast use vstd::multiset::group_multiset_axioms;

                assert(!p(g));
                lemma_sel_skip(gs0, j, p, r0, g);
                assert(r@.to_multiset().add(input@.to_multiset().filter(p))
                    =~= gs0.to_multiset().filter(p));
            }
        }
    }
    proof {
        broadcast use vstd::seq_lib::group_to_multiset_ensures;
        broadcast use vstd::multiset::group_multiset_axioms;

        assert(r@.to_multiset() =~= gs0.to_multiset().filter(p));
    }
    r
}

/// The order a sort uses: lexicographic on the canonical text when
/// `by_text`, else by absolute address.
pub open spec fn key_le(a: Gadget, b: Gadget, by_text: bool) -> bool {
    if by_text {
        lex_le(a.text@, b.text@)
    } else {
        a.addr <= b.addr
    }
}

/// The order is total.
pub proof fn lemma_key_le_total(a: Gadget, b: Gadget, by_text: bool)
    ensures
        key_le(a, b, by_text) || key_le(b, a, by_text),
{
    if by_text {
        lemma_lex_le_total(a.text@, b.text@);
    }
}

/// The order is transitive.
pub proof fn lemma_key_le_trans(a: Gadget, b: Gadget, c: Gadget, by_text: bool)
    requires
        key_le(a, b, by_text),
        key_le(b, c, by_text),
    ensures
        key_le(a, c, by_text),
{
    if by_text {
        lemma_lex_le_trans(a.text@, b.text@, c.text@);
    }
}

/// See [`key_le`].
fn key_le_exec(a: &Gadget, b: &Gadget, by_text: bool) -> (r: bool)
    ensures
        r == key_le(*a, *b, by_text),
{
    if by_text {
        bytes_le(&a.text, &b.text)
    } else {
        a.addr <= b.addr
    }
}

/// Index of a minimal element under [`key_le`].
fn find_min(input: &Vec<Gadget>, by_text: bool) -> (m: usize)
    requires
        input@.len() >= 1,
    ensures
        m < input@.len(),
        forall|j: int| 0 <= j < input@.len() ==> key_le(input@[m as int], #[trigger] input@[j], by_text),
{
    let mut m: usize = 0;
    let mut j: usize = 1;
    proof {
        lemma_key_le_total(input@[0], input@[0], by_text);
    }
    while j < input.len()
        invariant
            0 <= m < j <= input@.len(),
            forall|j2: int|
                0 <= j2 < j ==> key_le(input@[m as int], #[trigger] input@[j2], by_text),
        decreases input@.len() - j,
    {
        if key_le_exec(&input[j], &input[m], by_text) {
            proof {
                assert forall|j2: int|
                    0 <= j2 < j + 1 implies key_le(input@[j as int], #[trigger] input@[j2], by_text) by {
                    if j2 < j {
                        lemma_key_le_trans(input@[j as int], input@[m as int], input@[j2], by_text);
                    } else {
                        lemma_key_le_total(input@[j as int], input@[j as int], by_text);
                    }
                }
            }
            m = j;
        } else {
            proof {
                lemma_key_le_total(input@[m as int], input@[j as int], by_text);
            }
        }
        j = j + 1;
    }
    m
}

/// Sort by address, or by canonical text when `by_text`: a permutation of
/// the input (the same gadgets with the same multiplicities), in
/// non-decreasing key order.
#[verifier::spinoff_prover]
pub fn sort_gadgets(gs: Vec<Gadget>, by_text: bool) -> (r: Vec<Gadget>)
    ensures
        r@.len() == gs@.len(),
        r@.to_multiset() == gs@.to_multiset(),
        forall|k1: int, k2: int|
            0 <= k1 < k2 < r@.len() ==> key_le(#[trigger] r@[k1], #[trigger] r@[k2], by_text),
{
    let mut input = gs;
    let ghost gs0 = input@;
    let mut r: Vec<Gadget> = Vec::new();
    proof {
        broadcast use vstd::seq_lib::group_to_multiset_ensures;
        broadcast use vstd::multiset::group_multiset_axioms;

        assert(r@.to_multiset().add(input@.to_multiset()) =~= gs0.to_multiset());
    }
    while input.len() > 0
        invariant
            r@.len() + input@.len() == gs0.len(),
            r@.to_multiset().add(input@.to_multiset()) == gs0.to_multiset(),
            forall|k1: int, k2: int|
                0 <= k1 < k2 < r@.len() ==> key_le(#[trigger] r@[k1], #[trigger] r@[k2], by_text),
            forall|k: int, j: int|
                0 <= k < r@.len() && 0 <= j < input@.len() ==> key_le(
                    #[trigger] r@[k],
                    #[trigger] input@[j],
                    by_text,
                ),
        decreases input@.len(),
    {
        let ghost r0 = r@;
        let ghost in0 = input@;
        let m = find_min(&input, by_text);
        let g = input.remove(m);
        r.push(g);
        proof {
            broadcast use vstd::seq_lib::group_to_multiset_ensures;
            broadcast use vstd::multiset::group_multiset_axioms;

            assert(g == in0[m as int]);
            assert(input@ == in0.remove(m as int));
            assert(in0.remove(m as int).to_multiset() == in0.to_multiset().remove(g));
            assert(r@ == r0.push(g));
            assert(r0.push(g).to_multiset() =~= r0.to_multiset().insert(g));
            assert(in0.contains(g)) by {
                assert(in0[m as int] == g);
            }
            assert(in0.to_multiset().count(g) > 0);
            assert(r@.to_multiset().add(input@.to_multiset()) =~= gs0.to_multiset());
            assert(forall|k: int| 0 <= k < r0.len() ==> r@[k] == r0[k]);
            assert(r@[r@.len() - 1] == g);
            assert forall|k1: int, k2: int| 0 <= k1 < k2 < r@.len() implies key_le(
                #[trigger] r@[k1],
                #[trigger] r@[k2],
                by_text,
            ) by {
                if k2 == r@.len() - 1 {
                    assert(key_le(r0[k1], in0[m as int], by_text));
                }
            }
            assert forall|k: int, j: int|
                0 <= k < r@.len() && 0 <= j < input@.len() implies key_le(
                #[trigger] r@[k],
                #[trigger] input@[j],
                by_text,
            ) by {
                let jorig: int = if j < m {
                    j
                } else {
                    j + 1
                };
                assert(input@[j] == in0[jorig]);
                if k < r0.len() {
                    assert(key_le(r0[k], in0[jorig], by_text));
                } else {
                    assert(key_le(in0[m as int], in0[jorig], by_text));
                }
            }
        }
    }
    proof {
        broadcast use vstd::seq_lib::group_to_multiset_ensures;
        broadcast use vstd::multiset::group_multiset_axioms;

        assert(r@.to_multiset() =~= gs0.to_multiset());
    }
    r
}

/// Ordering law for the default output: sorted by address with pairwise
/// distinct addresses is strictly ascending by address.
pub proof fn lemma_sorted_strict_by_addr(rs: Seq<Gadget>)
    requires
        forall|k1: int, k2: int|
            0 <= k1 < k2 < rs.len() ==> key_le(#[trigger] rs[k1], #[trigger] rs[k2], false),
        forall|k1: int, k2: int| 0 <= k1 < k2 < rs.len() ==> rs[k1].addr != rs[k2].addr,
    ensures
        forall|k1: int, k2: int|
            0 <= k1 < k2 < rs.len() ==> (#[trigger] rs[k1]).addr < (#[trigger] rs[k2]).addr,
{
}

/// Ordering law for the alphabetized output: sorted by text with pairwise
/// distinct texts (as deduplication leaves them) is strictly ascending by
/// text.
pub proof fn lemma_sorted_strict_by_text(rs: Seq<Gadget>)
    requires
        forall|k1: int, k2: int|
            0 <= k1 < k2 < rs.len() ==> key_le(#[trigger] rs[k1], #[trigger] rs[k2], true),
        forall|k1: int, k2: int| 0 <= k1 < k2 < rs.len() ==> rs[k1].text@ != rs[k2].text@,
    ensures
        forall|k1: int, k2: int|
            0 <= k1 < k2 < rs.len() ==> lex_le((#[trigger] rs[k1]).text@, (#[trigger] rs[k2]).text@)
                && rs[k1].text@ != rs[k2].text@,
{
}

/// What the whole filter / dedup / sort stage returns for a given input:
/// some list `ranged` holds exactly the inputs passing the range filter,
/// with their input multiplicities; `mid` is its deduplication by
/// canonical text when `uniq` (lowest address per text), else `ranged`
/// itself; and the result holds exactly the members of `mid` passing the
/// regex, pivot and NOP-prefix filters, with their multiplicities, in some
/// order.
pub open spec fn process_result(
    gs: Seq<Gadget>,
    ranges: Seq<(u64, u64)>,
    pos: Seq<Matcher>,
    neg: Seq<Matcher>,
    stack_pivot: bool,
    base_pivot: bool,
    trim_nops: bool,
    uniq: bool,
    ret_thunk: Option<u64>,
    r: Seq<Gadget>,
) -> bool {
    exists|ranged: Seq<Gadget>, mid: Seq<Gadget>|
        #![trigger sel_inv(gs, 0, range_pred(ranges), ranged), mid.to_multiset()]
        {
            &&& sel_inv(gs, 0, range_pred(ranges), ranged)
            &&& ranged.to_multiset() == gs.to_multiset().filter(range_pred(ranges))
            &&& if uniq {
                &&& dedup_inv(ranged, 0, mid)
                &&& (forall|k: int|
                    0 <= k < mid.len() ==> min_addr_for(
                        ranged,
                        (#[trigger] mid[k]).text@,
                        mid[k].addr,
                    ))
            } else {
                mid == ranged
            }
            &&& sel_inv(
                mid,
                0,
                keep_pred(pos, neg, stack_pivot, base_pivot, trim_nops, ret_thunk),
                r,
            )
            &&& r.to_multiset() == mid.to_multiset().filter(
                keep_pred(pos, neg, stack_pivot, base_pivot, trim_nops, ret_thunk),
            )
        }
}

/// The whole filter / dedup / sort stage in the pipeline's order: the
/// address-range filter ([`filter_ranges`]), deduplication by canonical
/// text when `uniq` ([`dedup_gadgets`]), the regex, pivot and NOP-prefix
/// filters ([`filter_keep`]), and the final ordering ([`sort_gadgets`]).
/// The output is exactly the surviving gadgets ([`process_result`]), in
/// non-decreasing key order; [`lemma_sorted_strict_by_addr`] and
/// [`lemma_sorted_strict_by_text`] sharpen the order to strict where the
/// keys are pairwise distinct.
#[verifier::rlimit(100)]
#[verifier::spinoff_prover]
pub fn process_gadgets(
    gs: Vec<Gadget>,
    ranges: &Vec<(u64, u64)>,
    pos: &Vec<Matcher>,
    neg: &Vec<Matcher>,
    stack_pivot: bool,
    base_pivot: bool,
    trim_nops: bool,
    uniq: bool,
    sort_by_text: bool,
    ret_thunk: Option<u64>,
) -> (r: Vec<Gadget>)
    requires
        forall|k: int| 0 <= k < gs@.len() ==> (#[trigger] gs@[k]).insns@.len() >= 1,
    ensures
        process_result(
            gs@,
            ranges@,
            pos@,
            neg@,
            stack_pivot,
            base_pivot,
            trim_nops,
            uniq,
            ret_thunk,
            r@,
        ),
        forall|k1: int, k2: int|
            0 <= k1 < k2 < r@.len() ==> key_le(#[trigger] r@[k1], #[trigger] r@[k2], sort_by_text),
{
    let ghost gs0 = gs@;
    let ranged = filter_ranges(gs, ranges);
    proof {
        assert forall|k: int| 0 <= k < ranged@.len() implies (#[trigger] ranged@[k]).insns@.len()
            >= 1 by {
            let jw = choose|j: int| 0 <= j < gs0.len() && gs0[j] == ranged@[k];
            assert(gs0[jw].insns@.len() >= 1);
        }
    }
    let ghost ranged0 = ranged@;
    let stage2 = if uniq {
        dedup_gadgets(ranged)
    } else {
        ranged
    };
    proof {
        assert forall|k: int| 0 <= k < stage2@.len() implies (#[trigger] stage2@[k]).insns@.len()
            >= 1 by {
            if uniq {
                let jw = choose|j: int| 0 <= j < ranged0.len() && ranged0[j] == stage2@[k];
                assert(ranged0[jw].insns@.len() >= 1);
            }
        }
    }
    let ghost mid0 = stage2@;
    let kept = filter_keep(stage2, pos, neg, stack_pivot, base_pivot, trim_nops, ret_thunk);
    let ghost kept0 = kept@;
    let r = sort_gadgets(kept, sort_by_text);
    proof {
        let keepp = keep_pred(pos@, neg@, stack_pivot, base_pivot, trim_nops, ret_thunk);
        assert(r@.to_multiset() == mid0.to_multiset().filter(keepp));
        lemma_sel_inv_perm(mid0, keepp, kept0, r@);
        assert(process_result(
            gs0,
            ranges@,
            pos@,
            neg@,
            stack_pivot,
            base_pivot,
            trim_nops,
            uniq,
            ret_thunk,
            r@,
        )) by {
            assert(sel_inv(gs0, 0, range_pred(ranges@), ranged0));
            assert(mid0.to_multiset() == mid0.to_multiset());
        }
    }
    r
}

} // verus!


