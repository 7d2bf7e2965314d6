//! Byte-string helpers: equality and lexicographic order, lowercase hex
//! formatting, hex parsing for address ranges, left-to-right non-overlapping
//! substring replacement, and ASCII upper-casing.
//!
//! All text in the library is a `Vec<u8>` of ASCII bytes.

use vstd::prelude::*;

verus! {

/// ASCII `0`.
pub const B_ZERO: u8 = 48;
/// ASCII `x`.
pub const B_X: u8 = 120;
/// ASCII `-`.
pub const B_DASH: u8 = 45;

/// Equality of two byte strings.
pub fn bytes_eq(a: &Vec<u8>, b: &Vec<u8>) -> (r: bool)
    ensures
        r == (a@ == b@),
{
    if a.len() != b.len() {
        assert(a@ != b@) by {
            assert(a@.len() != b@.len());
        }
        return false;
    }
    let mut i: usize = 0;
    while i < a.len()
        invariant
            0 <= i <= a@.len(),
            a@.len() == b@.len(),
            forall|j: int| 0 <= j < i ==> a@[j] == b@[j],
        decreases a@.len() - i,
    {
        if a[i] != b[i] {
            return false;
        }
        i = i + 1;
    }
    proof {
        assert(a@ =~= b@);
    }
    true
}

/// Lexicographic order on byte strings, with a prefix before its extensions.
pub open spec fn lex_le(a: Seq<u8>, b: Seq<u8>) -> bool
    decreases a.len(),
{
    if a.len() == 0 {
        true
    } else if b.len() == 0 {
        false
    } else if a[0] < b[0] {
        true
    } else if a[0] > b[0] {
        false
    } else {
        lex_le(a.skip(1), b.skip(1))
    }
}

/// The order is total.
pub proof fn lemma_lex_le_total(a: Seq<u8>, b: Seq<u8>)
    ensures
        lex_le(a, b) || lex_le(b, a),
    decreases a.len(),
{
    if a.len() > 0 && b.len() > 0 && a[0] == b[0] {
        lemma_lex_le_total(a.skip(1), b.skip(1));
    }
}

/// The order is transitive.
pub proof fn lemma_lex_le_trans(a: Seq<u8>, b: Seq<u8>, c: Seq<u8>)
    requires
        lex_le(a, b),
        lex_le(b, c),
    ensures
        lex_le(a, c),
    decreases a.len(),
{
    if a.len() == 0 {
    } else {
        if a[0] == b[0] && b[0] == c[0] {
            lemma_lex_le_trans(a.skip(1), b.skip(1), c.skip(1));
        }
    }
}

/// The order is antisymmetric.
pub proof fn lemma_lex_le_antisym(a: Seq<u8>, b: Seq<u8>)
    requires
        lex_le(a, b),
        lex_le(b, a),
    ensures
        a == b,
    decreases a.len(),
{
    if a.len() == 0 {
        assert(b.len() == 0);
        assert(a =~= b);
    } else {
        assert(b.len() > 0);
        assert(a[0] == b[0]);
        lemma_lex_le_antisym(a.skip(1), b.skip(1));
        assert(a.len() == b.len());
        assert forall|i: int| 0 <= i < a.len() implies a[i] == b[i] by {
            if i >= 1 {
                assert(a[i] == a.skip(1)[i - 1]);
                assert(b[i] == b.skip(1)[i - 1]);
            }
        }
        assert(a =~= b);
    }
}

/// See [`lex_le`].
pub fn bytes_le(a: &Vec<u8>, b: &Vec<u8>) -> (r: bool)
    ensures
        r == lex_le(a@, b@),
{
    let mut i: usize = 0;
    proof {
        assert(a@.skip(0) =~= a@);
        assert(b@.skip(0) =~= b@);
    }
    loop
        invariant
            0 <= i <= a@.len(),
            i <= b@.len(),
            lex_le(a@, b@) == lex_le(a@.skip(i as int), b@.skip(i as int)),
        decreases a@.len() - i,
    {
        if i == a.len() {
            return true;
        }
        if i == b.len() {
            return false;
        }
        let x = a[i];
        let y = b[i];
        proof {
            assert(a@.skip(i as int)[0] == a@[i as int]);
            assert(b@.skip(i as int)[0] == b@[i as int]);
            assert(a@.skip(i as int).skip(1) =~= a@.skip(i + 1));
            assert(b@.skip(i as int).skip(1) =~= b@.skip(i + 1));
        }
        if x < y {
            return true;
        }
        if x > y {
            return false;
        }
        i = i + 1;
    }
}

/// Append a copy of `add` to `out`.
pub fn push_all(out: &mut Vec<u8>, add: &Vec<u8>)
    ensures
        final(out)@ == old(out)@ + add@,
{
    let mut i: usize = 0;
    while i < add.len()
        invariant
            0 <= i <= add@.len(),
            out@ == old(out)@ + add@.subrange(0, i as int),
        decreases add@.len() - i,
    {
        out.push(add[i]);
        proof {
            assert(old(out)@ + add@.subrange(0, i as int) + seq![add@[i as int]] =~= old(out)@
                + add@.subrange(0, i + 1));
        }
        i = i + 1;
    }
    proof {
        assert(add@.subrange(0, add@.len() as int) =~= add@);
    }
}

/// Lowercase hex digit for a value below 16.
pub open spec fn hex_digit_char(d: int) -> u8 {
    if d < 10 {
        (48 + d) as u8
    } else {
        (87 + d) as u8
    }
}

/// The lowercase hex digits of `v`, most significant first, no leading
/// zeros (a single `0` for zero).
pub open spec fn hex_digits(v: int) -> Seq<u8>
    decreases v,
{
    if v < 16 {
        seq![hex_digit_char(v)]
    } else {
        hex_digits(v / 16) + seq![hex_digit_char(v % 16)]
    }
}

/// `v` as `0x`-prefixed lowercase hex, as `{:#x}` formats it.
pub open spec fn spec_fmt_hex(v: int) -> Seq<u8> {
    seq![B_ZERO, B_X] + hex_digits(v)
}

/// `v` as `0x`-prefixed lowercase hex, zero-padded to ten characters
/// including the prefix, as `{:#010x}` formats it.
pub open spec fn spec_fmt_hex_padded(v: int) -> Seq<u8> {
    let d = hex_digits(v);
    if d.len() < 8 {
        seq![B_ZERO, B_X] + Seq::new((8 - d.len()) as nat, |i: int| B_ZERO) + d
    } else {
        seq![B_ZERO, B_X] + d
    }
}

/// Hex digit for a value below 16; see [`hex_digit_char`].
fn hex_char(d: u64) -> (r: u8)
    requires
        d < 16,
    ensures
        r == hex_digit_char(d as int),
{
    if d < 10 {
        48 + (d as u8)
    } else {
        87 + (d as u8)
    }
}

/// Append the hex digits of `v`; see [`hex_digits`].
pub fn push_hex_digits(out: &mut Vec<u8>, v: u64)
    ensures
        final(out)@ == old(out)@ + hex_digits(v as int),
    decreases v,
{
    if v < 16 {
        out.push(hex_char(v));
    } else {
        push_hex_digits(out, v / 16);
        out.push(hex_char(v % 16));
        proof {
            assert(old(out)@ + hex_digits(v as int / 16) + seq![hex_digit_char(v as int % 16)]
                =~= old(out)@ + hex_digits(v as int));
        }
    }
}

/// Count of hex digits of `v`.
fn hex_len(v: u64) -> (r: usize)
    ensures
        r == hex_digits(v as int).len(),
        1 <= r <= 16,
    decreases v,
{
    proof {
        lemma_pow16();
        lemma_hex_digits_len_bound(v as int, 16);
    }
    if v < 16 {
        1
    } else {
        proof {
            lemma_pow16();
            lemma_hex_digits_len_bound(v as int / 16, 16);
        }
        1 + hex_len(v / 16)
    }
}

/// Sixteen to the `k`-th power.
spec fn pow16(k: int) -> int
    decreases k,
{
    if k <= 0 {
        1
    } else {
        16 * pow16(k - 1)
    }
}

/// The sixteenth power of sixteen is two to the sixty-fourth.
proof fn lemma_pow16()
    ensures
        pow16(16) == 0x1_0000_0000_0000_0000,
{
    reveal_with_fuel(pow16, 17);
}

/// A value below sixteen to the `k`-th has at most `k` hex digits.
proof fn lemma_hex_digits_len_bound(v: int, k: int)
    requires
        0 <= v,
        1 <= k,
        v < pow16(k),
    ensures
        1 <= hex_digits(v).len() <= k,
    decreases k,
{
    if v >= 16 {
        assert(k >= 2) by {
            if k == 1 {
                assert(pow16(1) == 16 * pow16(0));
            }
        }
        assert(pow16(k) == 16 * pow16(k - 1));
        vstd::arithmetic::div_mod::lemma_fundamental_div_mod(v, 16);
        assert(v / 16 < pow16(k - 1)) by {
            if v / 16 >= pow16(k - 1) {
                assert(16 * (v / 16) >= 16 * pow16(k - 1)) by (nonlinear_arith)
                    requires
                        v / 16 >= pow16(k - 1),
                ;
            }
        }
        lemma_hex_digits_len_bound(v / 16, k - 1);
    }
}

/// `v` as `{:#x}` formats it; see [`spec_fmt_hex`].
pub fn fmt_hex(v: u64) -> (r: Vec<u8>)
    ensures
        r@ == spec_fmt_hex(v as int),
{
    let mut out: Vec<u8> = Vec::new();
    out.push(B_ZERO);
    out.push(B_X);
    assert(out@ =~= seq![B_ZERO, B_X]);
    push_hex_digits(&mut out, v);
    out
}

/// `v` as `{:#010x}` formats it; see [`spec_fmt_hex_padded`].
pub fn fmt_hex_padded(v: u64) -> (r: Vec<u8>)
    ensures
        r@ == spec_fmt_hex_padded(v as int),
{
    let mut out: Vec<u8> = Vec::new();
    out.push(B_ZERO);
    out.push(B_X);
    assert(out@ =~= seq![B_ZERO, B_X]);
    let n = hex_len(v);
    let mut pad: usize = 0;
    let ghost padding = if hex_digits(v as int).len() < 8 {
        Seq::new((8 - hex_digits(v as int).len()) as nat, |i: int| B_ZERO)
    } else {
        Seq::empty()
    };
    while n < 8 && pad < 8 - n
        invariant
            n == hex_digits(v as int).len(),
            n < 8 ==> 0 <= pad <= 8 - n,
            n >= 8 ==> pad == 0,
            out@ == seq![B_ZERO, B_X] + padding.subrange(0, pad as int),
            padding.len() == (if n < 8 { (8 - n) as int } else { 0 }),
            forall|i: int| 0 <= i < padding.len() ==> padding[i] == B_ZERO,
        decreases 8 - n - pad,
    {
        out.push(B_ZERO);
        proof {
            assert(seq![B_ZERO, B_X] + padding.subrange(0, pad as int) + seq![B_ZERO]
                =~= seq![B_ZERO, B_X] + padding.subrange(0, pad + 1));
        }
        pad = pad + 1;
    }
    proof {
        assert(padding.subrange(0, padding.len() as int) =~= padding);
        if n < 8 {
            assert(pad == 8 - n);
        }
    }
    push_hex_digits(&mut out, v);
    proof {
        if n < 8 {
            assert(out@ =~= spec_fmt_hex_padded(v as int));
        } else {
            assert(padding.subrange(0, 0) =~= Seq::<u8>::empty());
            assert(out@ =~= spec_fmt_hex_padded(v as int));
        }
    }
    out
}

/// `c` is an ASCII hex digit.
pub open spec fn is_hex_digit(c: u8) -> bool {
    (48 <= c <= 57) || (97 <= c <= 102) || (65 <= c <= 70)
}

/// Value of an ASCII hex digit.
pub open spec fn hex_val(c: u8) -> int {
    if 48 <= c <= 57 {
        c - 48
    } else if 97 <= c <= 102 {
        c - 87
    } else {
        c - 55
    }
}

/// Every byte of `s` is a hex digit.
pub open spec fn all_hex(s: Seq<u8>) -> bool {
    forall|i: int| 0 <= i < s.len() ==> is_hex_digit(s[i])
}

/// The numeric value of a hex digit string.
pub open spec fn hex_value(s: Seq<u8>) -> int
    decreases s.len(),
{
    if s.len() == 0 {
        0
    } else {
        hex_value(s.drop_last()) * 16 + hex_val(s.last())
    }
}

/// What parsing `s` as unsigned hex yields: its value, unless `s` is empty,
/// holds a non-digit, or overflows 64 bits.
pub open spec fn spec_parse_hex(s: Seq<u8>) -> Option<u64> {
    if s.len() > 0 && all_hex(s) && hex_value(s) <= u64::MAX {
        Some(hex_value(s) as u64)
    } else {
        None
    }
}

/// The value of a hex digit string is non-negative.
proof fn lemma_hex_value_nonneg(s: Seq<u8>)
    requires
        all_hex(s),
    ensures
        hex_value(s) >= 0,
    decreases s.len(),
{
    if s.len() > 0 {
        assert(all_hex(s.drop_last()));
        lemma_hex_value_nonneg(s.drop_last());
    }
}

/// A prefix of a hex digit string is worth no more than the whole.
proof fn lemma_hex_value_prefix_le(s: Seq<u8>, j: int)
    requires
        all_hex(s),
        0 <= j <= s.len(),
    ensures
        hex_value(s.subrange(0, j)) <= hex_value(s),
    decreases s.len(),
{
    if j == s.len() {
        assert(s.subrange(0, j) =~= s);
    } else {
        assert(all_hex(s.drop_last()));
        assert(s.subrange(0, j) =~= s.drop_last().subrange(0, j));
        lemma_hex_value_prefix_le(s.drop_last(), j);
        lemma_hex_value_nonneg(s.drop_last());
        assert(hex_value(s) == hex_value(s.drop_last()) * 16 + hex_val(s.last()));
    }
}

/// Parse `s[start..end]` as unsigned hex; see [`spec_parse_hex`].
pub fn parse_hex_u64(s: &Vec<u8>, start: usize, end: usize) -> (r: Option<u64>)
    requires
        start <= end <= s@.len(),
    ensures
        r == spec_parse_hex(s@.subrange(start as int, end as int)),
{
    let ghost sub = s@.subrange(start as int, end as int);
    if start == end {
        return None;
    }
    let mut acc: u64 = 0;
    let mut i: usize = start;
    while i < end
        invariant
            start <= i <= end <= s@.len(),
            sub == s@.subrange(start as int, end as int),
            all_hex(sub.subrange(0, i - start)),
            acc == hex_value(sub.subrange(0, i - start)),
        decreases end - i,
    {
        let c = s[i];
        proof {
            assert(sub[i - start] == s@[i as int]);
        }
        let d: u64 = if 48 <= c && c <= 57 {
            (c - 48) as u64
        } else if 97 <= c && c <= 102 {
            (c - 87) as u64
        } else if 65 <= c && c <= 70 {
            (c - 55) as u64
        } else {
            proof {
                assert(!is_hex_digit(sub[i - start]));
            }
            return None;
        };
        proof {
            assert(is_hex_digit(sub[i - start]));
            assert(d == hex_val(sub[i - start]));
        }
        if acc > (u64::MAX - d) / 16 {
            proof {
                let p1 = sub.subrange(0, i - start + 1);
                assert(p1.drop_last() =~= sub.subrange(0, i - start));
                assert(p1.last() == sub[i - start]);
                assert(all_hex(p1));
                assert(hex_value(p1) == acc * 16 + d);
                assert(hex_value(p1) > u64::MAX);
                if all_hex(sub) {
                    lemma_hex_value_prefix_le(sub, i - start + 1);
                }
            }
            return None;
        }
        proof {
            let p1 = sub.subrange(0, i - start + 1);
            assert(p1.drop_last() =~= sub.subrange(0, i - start));
            assert(p1.last() == sub[i - start]);
            assert(hex_value(p1) == acc * 16 + d);
        }
        acc = acc * 16 + d;
        i = i + 1;
    }
    proof {
        assert(sub.subrange(0, (end - start) as int) =~= sub);
    }
    Some(acc)
}

/// `s` with a leading `0x` removed, if present.
pub open spec fn strip_0x(s: Seq<u8>) -> Seq<u8> {
    if s.len() >= 2 && s[0] == B_ZERO && s[1] == B_X {
        s.skip(2)
    } else {
        s
    }
}

/// Index of the first occurrence of `c` in `s`, or -1.
pub open spec fn find_byte(s: Seq<u8>, c: u8) -> int
    decreases s.len(),
{
    if s.len() == 0 {
        -1
    } else if s[0] == c {
        0
    } else {
        let r = find_byte(s.skip(1), c);
        if r < 0 {
            -1
        } else {
            r + 1
        }
    }
}

/// [`find_byte`] finds exactly the first occurrence.
pub proof fn lemma_find_byte(s: Seq<u8>, c: u8)
    ensures
        find_byte(s, c) == -1 ==> forall|j: int| 0 <= j < s.len() ==> s[j] != c,
        find_byte(s, c) != -1 ==> {
            &&& 0 <= find_byte(s, c) < s.len()
            &&& s[find_byte(s, c)] == c
            &&& forall|j: int| 0 <= j < find_byte(s, c) ==> s[j] != c
        },
    decreases s.len(),
{
    if s.len() > 0 && s[0] != c {
        lemma_find_byte(s.skip(1), c);
        assert(forall|j: int| 1 <= j < s.len() ==> s[j] == s.skip(1)[j - 1]);
    }
}

/// What parsing a range argument `from-to` yields: both sides hex with an
/// optional `0x` prefix, split at the first dash. A malformed argument
/// yields nothing and is ignored by the caller.
pub open spec fn spec_parse_range(s: Seq<u8>) -> Option<(u64, u64)> {
    let d = find_byte(s, B_DASH);
    if d < 0 {
        None
    } else {
        let from = spec_parse_hex(strip_0x(s.subrange(0, d)));
        let to = spec_parse_hex(strip_0x(s.subrange(d + 1, s.len() as int)));
        if from is Some && to is Some {
            Some((from->Some_0, to->Some_0))
        } else {
            None
        }
    }
}

/// Parse one `from-to` hex range; see [`spec_parse_range`].
pub fn parse_range(s: &Vec<u8>) -> (r: Option<(u64, u64)>)
    ensures
        r == spec_parse_range(s@),
{
    proof {
        lemma_find_byte(s@, B_DASH);
    }
    let mut d: usize = 0;
    let mut found = false;
    while d < s.len() && !found
        invariant
            0 <= d <= s@.len(),
            !found ==> forall|j: int| 0 <= j < d ==> s@[j] != B_DASH,
            found ==> 0 <= d < s@.len() && s@[d as int] == B_DASH && forall|j: int|
                0 <= j < d ==> s@[j] != B_DASH,
        decreases s@.len() - d + (if found { 0int } else { 1int }),
    {
        if s[d] == B_DASH {
            found = true;
        } else {
            d = d + 1;
        }
    }
    if !found {
        proof {
            if find_byte(s@, B_DASH) >= 0 {
                assert(s@[find_byte(s@, B_DASH)] == B_DASH);
            }
        }
        return None;
    }
    proof {
        let f = find_byte(s@, B_DASH);
        if f == -1 {
            assert(s@[d as int] != B_DASH);
        }
        assert(f == d) by {
            if f < d {
                assert(s@[f] != B_DASH);
            }
            if f > d {
                assert(s@[d as int] != B_DASH);
            }
        }
    }
    let from = parse_side(s, 0, d);
    let to = parse_side(s, d + 1, s.len());
    match (from, to) {
        (Some(f), Some(t)) => Some((f, t)),
        _ => None,
    }
}

/// Parse `s[start..end]` as hex with an optional `0x` prefix.
fn parse_side(s: &Vec<u8>, start: usize, end: usize) -> (r: Option<u64>)
    requires
        start <= end <= s@.len(),
    ensures
        r == spec_parse_hex(strip_0x(s@.subrange(start as int, end as int))),
{
    let ghost sub = s@.subrange(start as int, end as int);
    if end - start >= 2 && s[start] == B_ZERO && s[start + 1] == B_X {
        proof {
            assert(sub[0] == B_ZERO && sub[1] == B_X);
            assert(strip_0x(sub) =~= s@.subrange(start + 2, end as int));
        }
        parse_hex_u64(s, start + 2, end)
    } else {
        proof {
            assert(strip_0x(sub) == sub);
        }
        parse_hex_u64(s, start, end)
    }
}

/// `s` with every occurrence of `pat` replaced by `sub`, scanning left to
/// right without overlap, as `str::replace` does.
#[verifier::opaque]
pub open spec fn replaced(s: Seq<u8>, pat: Seq<u8>, sub: Seq<u8>) -> Seq<u8>
    decreases s.len(),
{
    if pat.len() == 0 || s.len() < pat.len() {
        s
    } else if s.subrange(0, pat.len() as int) == pat {
        sub + replaced(s.skip(pat.len() as int), pat, sub)
    } else {
        s.take(1) + replaced(s.skip(1), pat, sub)
    }
}

/// `pat` occurs in `s` at position `i`.
fn pat_at(s: &Vec<u8>, i: usize, pat: &Vec<u8>) -> (r: bool)
    requires
        i <= s@.len(),
    ensures
        r == (i + pat@.len() <= s@.len() && s@.subrange(i as int, i + pat@.len()) == pat@),
{
    if pat.len() > s.len() - i {
        return false;
    }
    let mut j: usize = 0;
    while j < pat.len()
        invariant
            0 <= j <= pat@.len(),
            i + pat@.len() <= s@.len(),
            s@.len() <= usize::MAX,
            forall|k: int| 0 <= k < j ==> s@[i + k] == pat@[k],
        decreases pat@.len() - j,
    {
        if s[i + j] != pat[j] {
            proof {
                assert(s@.subrange(i as int, i + pat@.len())[j as int] != pat@[j as int]);
            }
            return false;
        }
        j = j + 1;
    }
    proof {
        assert(s@.subrange(i as int, i + pat@.len()) =~= pat@);
    }
    true
}

/// Replace every occurrence of `pat` in `s` by `sub`; see [`replaced`].
pub fn replace_all(s: &Vec<u8>, pat: &Vec<u8>, sub: &Vec<u8>) -> (r: Vec<u8>)
    requires
        pat@.len() >= 1,
    ensures
        r@ == replaced(s@, pat@, sub@),
{
    let mut out: Vec<u8> = Vec::new();
    let mut i: usize = 0;
    proof {
        reveal(crate::textutil::replaced);
        assert(s@.skip(0) =~= s@);
        assert(Seq::<u8>::empty() + replaced(s@, pat@, sub@) =~= replaced(s@, pat@, sub@));
    }
    while i < s.len()
        invariant
            0 <= i <= s@.len(),
            pat@.len() >= 1,
            replaced(s@, pat@, sub@) == out@ + replaced(s@.skip(i as int), pat@, sub@),
        decreases s@.len() - i,
    {
        let ghost rest = s@.skip(i as int);
        if pat_at(s, i, pat) {
            proof {
                reveal(crate::textutil::replaced);
                assert(rest.subrange(0, pat@.len() as int) =~= s@.subrange(
                    i as int,
                    i + pat@.len(),
                ));
                assert(rest.skip(pat@.len() as int) =~= s@.skip(i + pat@.len()));
                assert(replaced(rest, pat@, sub@) == sub@ + replaced(
                    s@.skip(i + pat@.len()),
                    pat@,
                    sub@,
                ));
            }
            push_all(&mut out, sub);
            i = i + pat.len();
        } else {
            proof {
                reveal(crate::textutil::replaced);
                if i + pat@.len() <= s@.len() {
                    assert(rest.subrange(0, pat@.len() as int) =~= s@.subrange(
                        i as int,
                        i + pat@.len(),
                    ));
                    assert(rest.len() >= pat@.len());
                    assert(rest.subrange(0, pat@.len() as int) != pat@);
                } else {
                    assert(rest.len() < pat@.len());
                }
                if rest.len() >= pat@.len() {
                    assert(rest.take(1) =~= seq![s@[i as int]]);
                    assert(rest.skip(1) =~= s@.skip(i + 1));
                    assert(replaced(rest, pat@, sub@) == seq![s@[i as int]] + replaced(
                        s@.skip(i + 1),
                        pat@,
                        sub@,
                    ));
                }
            }
            out.push(s[i]);
            proof {
                reveal(crate::textutil::replaced);
                if rest.len() < pat@.len() {
                    // the tail is shorter than the pattern: it is copied through
                    assert(replaced(rest, pat@, sub@) == rest);
                    assert(s@.skip(i + 1).len() < pat@.len());
                    assert(replaced(s@.skip(i + 1), pat@, sub@) == s@.skip(i + 1));
                    assert(rest =~= seq![s@[i as int]] + s@.skip(i + 1));
                }
            }
            i = i + 1;
        }
    }
    proof {
        reveal(crate::textutil::replaced);
        assert(s@.skip(s@.len() as int) =~= Seq::<u8>::empty());
        assert(replaced(Seq::<u8>::empty(), pat@, sub@) == Seq::<u8>::empty());
        assert(out@ + Seq::<u8>::empty() =~= out@);
    }
    out
}

/// ASCII lowercase letters mapped to uppercase, all else unchanged.
pub open spec fn spec_upper(c: u8) -> u8 {
    if 97 <= c <= 122 {
        (c - 32) as u8
    } else {
        c
    }
}

/// Uppercase a byte string; see [`spec_upper`].
pub fn to_upper(s: &Vec<u8>) -> (r: Vec<u8>)
    ensures
        r@.len() == s@.len(),
        forall|i: int| 0 <= i < s@.len() ==> r@[i] == spec_upper(s@[i]),
{
    let mut out: Vec<u8> = Vec::new();
    let mut i: usize = 0;
    while i < s.len()
        invariant
            0 <= i <= s@.len(),
            out@.len() == i,
            forall|j: int| 0 <= j < i ==> out@[j] == spec_upper(s@[j]),
        decreases s@.len() - i,
    {
        let c = s[i];
        if 97 <= c && c <= 122 {
            out.push(c - 32);
        } else {
            out.push(c);
        }
        i = i + 1;
    }
    out
}

} // verus!
