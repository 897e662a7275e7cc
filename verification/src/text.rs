//! Byte-level text utilities shared by the parsers and renderers: decimal
//! formatting and parsing, substring search, line splitting, tokenizing and
//! trimming. All of them work on ASCII byte strings.

use vstd::prelude::*;

verus! {

/// ASCII whitespace as the tokenizers understand it.
pub open spec fn is_ws(b: u8) -> bool {
    b == 32 || b == 9 || b == 13 || b == 10
}

/// ASCII decimal digit.
pub open spec fn is_digit(b: u8) -> bool {
    48 <= b <= 57
}

pub open spec fn all_digits(s: Seq<u8>) -> bool {
    forall|i: int| 0 <= i < s.len() ==> is_digit(#[trigger] s[i])
}

/// Decimal rendering of a natural number, most significant digit first.
pub open spec fn spec_dec(n: nat) -> Seq<u8>
    decreases n,
{
    if n < 10 {
        seq![(48 + n) as u8]
    } else {
        spec_dec(n / 10).push((48 + n % 10) as u8)
    }
}

/// Render a number in decimal.
pub fn u64_to_dec(n: u64) -> (v: Vec<u8>)
    ensures
        v@ == spec_dec(n as nat),
    decreases n,
{
    if n < 10 {
        let mut v: Vec<u8> = Vec::new();
        v.push(48 + (n as u8));
        proof {
            assert(v@ =~= spec_dec(n as nat));
        }
        v
    } else {
        let mut v = u64_to_dec(n / 10);
        v.push(48 + ((n % 10) as u8));
        v
    }
}

/// Numeric value of a digit string.
pub open spec fn dec_val(s: Seq<u8>) -> nat
    decreases s.len(),
{
    if s.len() == 0 {
        0
    } else {
        (dec_val(s.drop_last()) * 10 + (s.last() - 48)) as nat
    }
}

/// A decimal token: non-empty, all digits, and its value fits in 64 bits.
pub open spec fn spec_parse_u64(s: Seq<u8>) -> Option<u64> {
    if s.len() == 0 || !all_digits(s) || dec_val(s) > u64::MAX {
        None
    } else {
        Some(dec_val(s) as u64)
    }
}

proof fn lemma_dec_val_prefix_step(s: Seq<u8>, i: int)
    requires
        0 <= i < s.len(),
        is_digit(s[i]),
    ensures
        dec_val(s.subrange(0, i + 1)) == dec_val(s.subrange(0, i)) * 10 + (s[i] - 48),
{
    let t = s.subrange(0, i + 1);
    assert(t.drop_last() =~= s.subrange(0, i));
    assert(t.last() == s[i]);
}

proof fn lemma_dec_val_prefix_mono(s: Seq<u8>, i: int)
    requires
        0 <= i <= s.len(),
        all_digits(s),
    ensures
        dec_val(s) >= dec_val(s.subrange(0, i)),
    decreases s.len() - i,
{
    if i == s.len() {
        assert(s.subrange(0, i) =~= s);
    } else {
        lemma_dec_val_prefix_step(s, i);
        lemma_dec_val_prefix_mono(s, i + 1);
        assert(dec_val(s.subrange(0, i + 1)) >= dec_val(s.subrange(0, i))) by {
            assert(dec_val(s.subrange(0, i)) * 10 >= dec_val(s.subrange(0, i))) by (nonlinear_arith);
        }
    }
}

/// Parse a decimal byte string into a 64-bit number.
///
/// Rejects the empty string, any non-digit byte, and values that overflow.
pub fn parse_u64(s: &[u8]) -> (r: Option<u64>)
    ensures
        r == spec_parse_u64(s@),
{
    if s.len() == 0 {
        return None;
    }
    let mut acc: u64 = 0;
    let mut i: usize = 0;
    while i < s.len()
        invariant
            0 <= i <= s@.len(),
            all_digits(s@.subrange(0, i as int)),
            acc == dec_val(s@.subrange(0, i as int)),
        decreases s@.len() - i,
    {
        let b = s[i];
        if b < 48 || b > 57 {
            assert(!all_digits(s@));
            return None;
        }
        let d: u64 = (b - 48) as u64;
        proof {
            lemma_dec_val_prefix_step(s@, i as int);
        }
        let shifted = match acc.checked_mul(10) {
            Some(x) => x,
            None => {
                proof {
                    assert(dec_val(s@.subrange(0, i as int + 1)) > u64::MAX);
                    if all_digits(s@) {
                        lemma_dec_val_prefix_mono(s@, i as int + 1);
                    }
                }
                return None;
            },
        };
        acc = match shifted.checked_add(d) {
            Some(x) => x,
            None => {
                proof {
                    assert(dec_val(s@.subrange(0, i as int + 1)) > u64::MAX);
                    if all_digits(s@) {
                        lemma_dec_val_prefix_mono(s@, i as int + 1);
                    }
                }
                return None;
            },
        };
        i = i + 1;
    }
    proof {
        assert(s@.subrange(0, i as int) =~= s@);
    }
    Some(acc)
}

/// Whether `p` occurs in `s` at position `i`.
pub open spec fn spec_matches_at(s: Seq<u8>, i: int, p: Seq<u8>) -> bool {
    0 <= i && i + p.len() <= s.len() && s.subrange(i, i + p.len()) == p
}

pub fn matches_at(s: &[u8], i: usize, p: &[u8]) -> (r: bool)
    ensures
        r == spec_matches_at(s@, i as int, p@),
{
    if i > s.len() || p.len() > s.len() - i {
        return false;
    }
    let mut j: usize = 0;
    while j < p.len()
        invariant
            0 <= j <= p@.len(),
            i + p@.len() <= s@.len(),
            s@.len() <= usize::MAX,
            forall|k: int| 0 <= k < j ==> s@[i + k] == p@[k],
        decreases p@.len() - j,
    {
        if s[i + j] != p[j] {
            assert(s@.subrange(i as int, i as int + p@.len())[j as int] != p@[j as int]);
            return false;
        }
        j = j + 1;
    }
    proof {
        assert(s@.subrange(i as int, i as int + p@.len()) =~= p@);
    }
    true
}

/// First position at or after `i` where the non-empty pattern `p` occurs in `s`.
pub open spec fn spec_find_from(s: Seq<u8>, i: int, p: Seq<u8>) -> Option<int>
    decreases s.len() - i,
{
    if i < 0 || p.len() == 0 || i + p.len() > s.len() {
        None
    } else if spec_matches_at(s, i, p) {
        Some(i)
    } else {
        spec_find_from(s, i + 1, p)
    }
}

/// First occurrence of `p` in `s`.
pub open spec fn spec_find(s: Seq<u8>, p: Seq<u8>) -> Option<int> {
    spec_find_from(s, 0, p)
}

pub fn find_from(s: &[u8], start: usize, p: &[u8]) -> (r: Option<usize>)
    ensures
        match r {
            Some(k) => Some(k as int) == spec_find_from(s@, start as int, p@),
            None => spec_find_from(s@, start as int, p@) is None,
        },
{
    let mut i: usize = start;
    if p.len() == 0 || p.len() > s.len() {
        return None;
    }
    while i <= s.len() - p.len()
        invariant
            start <= i,
            0 < p@.len() <= s@.len(),
            spec_find_from(s@, start as int, p@) == spec_find_from(s@, i as int, p@),
        decreases s@.len() - i,
    {
        if matches_at(s, i, p) {
            return Some(i);
        }
        i = i + 1;
    }
    None
}

/// First occurrence of `p` in `s`.
pub fn find_sub(s: &[u8], p: &[u8]) -> (r: Option<usize>)
    ensures
        match r {
            Some(k) => Some(k as int) == spec_find(s@, p@),
            None => spec_find(s@, p@) is None,
        },
{
    find_from(s, 0, p)
}

pub proof fn lemma_find_from_bounds(s: Seq<u8>, i: int, p: Seq<u8>)
    requires
        0 <= i,
    ensures
        match spec_find_from(s, i, p) {
            Some(k) => i <= k && k + p.len() <= s.len(),
            None => true,
        },
    decreases s.len() - i,
{
    if !(i + p.len() > s.len() || p.len() == 0) && !spec_matches_at(s, i, p) {
        lemma_find_from_bounds(s, i + 1, p);
    }
}

pub proof fn lemma_find_sub_bounds(s: Seq<u8>, p: Seq<u8>)
    ensures
        match spec_find(s, p) {
            Some(k) => 0 <= k && k + p.len() <= s.len(),
            None => true,
        },
{
    lemma_find_from_bounds(s, 0, p);
}

/// Copy of `s[from..to]`.
pub fn copy_range(s: &[u8], from: usize, to: usize) -> (v: Vec<u8>)
    requires
        0 <= from <= to <= s@.len(),
    ensures
        v@ == s@.subrange(from as int, to as int),
{
    let mut v: Vec<u8> = Vec::new();
    let mut i: usize = from;
    while i < to
        invariant
            from <= i <= to <= s@.len(),
            v@ == s@.subrange(from as int, i as int),
        decreases to - i,
    {
        v.push(s[i]);
        proof {
            assert(v@ =~= s@.subrange(from as int, i + 1));
        }
        i = i + 1;
    }
    v
}

/// Copy of a whole byte slice.
pub fn byte_vec(a: &[u8]) -> (v: Vec<u8>)
    ensures
        v@ == a@,
{
    let n = a.len();
    let v = copy_range(a, 0, n);
    proof {
        assert(a@.subrange(0, n as int) =~= a@);
    }
    v
}

/// Append all of `p` to `out`.
pub fn push_bytes(out: &mut Vec<u8>, p: &[u8])
    ensures
        final(out)@ == old(out)@ + p@,
{
    let mut i: usize = 0;
    while i < p.len()
        invariant
            0 <= i <= p@.len(),
            out@ == old(out)@ + p@.subrange(0, i as int),
        decreases p@.len() - i,
    {
        out.push(p[i]);
        proof {
            assert(out@ =~= old(out)@ + p@.subrange(0, i + 1));
        }
        i = i + 1;
    }
    proof {
        assert(old(out)@ + p@.subrange(0, p@.len() as int) =~= old(out)@ + p@);
    }
}

/// Whether the two byte strings hold the same bytes.
pub fn eq_bytes(a: &[u8], b: &[u8]) -> (r: bool)
    ensures
        r == (a@ == b@),
{
    if a.len() != b.len() {
        return false;
    }
    let mut i: usize = 0;
    while i < a.len()
        invariant
            0 <= i <= a@.len(),
            a@.len() == b@.len(),
            forall|k: int| 0 <= k < i ==> a@[k] == b@[k],
        decreases a@.len() - i,
    {
        if a[i] != b[i] {
            return false;
        }
        i = i + 1;
    }
    proof {
        assert(a@ =~= b@);
    }
    true
}

/// First position at or after `i` holding byte `b`.
pub open spec fn spec_find_byte(s: Seq<u8>, b: u8, i: int) -> Option<int>
    decreases s.len() - i,
{
    if i < 0 || i >= s.len() {
        None
    } else if s[i] == b {
        Some(i)
    } else {
        spec_find_byte(s, b, i + 1)
    }
}

pub proof fn lemma_find_byte_bounds(s: Seq<u8>, b: u8, i: int)
    requires
        0 <= i,
    ensures
        match spec_find_byte(s, b, i) {
            Some(k) => i <= k < s.len() && s[k] == b,
            None => true,
        },
    decreases s.len() - i,
{
    if i < s.len() && s[i] != b {
        lemma_find_byte_bounds(s, b, i + 1);
    }
}

pub fn find_byte_from(s: &[u8], b: u8, start: usize) -> (r: Option<usize>)
    ensures
        match r {
            Some(k) => Some(k as int) == spec_find_byte(s@, b, start as int),
            None => spec_find_byte(s@, b, start as int) is None,
        },
{
    let n = s.len();
    let mut i: usize = start;
    while i < n
        invariant
            start <= i,
            n == s@.len(),
            spec_find_byte(s@, b, start as int) == spec_find_byte(s@, b, i as int),
        decreases s@.len() - i,
    {
        if s[i] == b {
            return Some(i);
        }
        i = i + 1;
    }
    None
}

/// A line with one trailing carriage return removed.
pub open spec fn spec_strip_cr(l: Seq<u8>) -> Seq<u8> {
    if l.len() > 0 && l.last() == 13 {
        l.drop_last()
    } else {
        l
    }
}

/// The lines of `s` from position `i` on, split on newline bytes, each with a
/// trailing carriage return removed; no trailing empty line after a final
/// newline.
pub open spec fn spec_lines_from(s: Seq<u8>, i: int) -> Seq<Seq<u8>>
    decreases s.len() - i,
{
    if i < 0 || i >= s.len() {
        Seq::empty()
    } else {
        match spec_find_byte(s, 10, i) {
            Some(k) => if i <= k < s.len() {
                Seq::empty().push(spec_strip_cr(s.subrange(i, k))) + spec_lines_from(s, k + 1)
            } else {
                Seq::empty()
            },
            None => Seq::empty().push(s.subrange(i, s.len() as int)),
        }
    }
}

/// The lines of `s`.
pub open spec fn spec_lines(s: Seq<u8>) -> Seq<Seq<u8>> {
    spec_lines_from(s, 0)
}

/// Split into lines on newline bytes, dropping one trailing carriage return
/// per line, with no trailing empty line after a final newline.
pub fn split_lines(s: &[u8]) -> (r: Vec<Vec<u8>>)
    ensures
        r.deep_view() == spec_lines(s@),
{
    lines_from(s, 0)
}

fn lines_from(s: &[u8], i: usize) -> (r: Vec<Vec<u8>>)
    ensures
        r.deep_view() == spec_lines_from(s@, i as int),
    decreases s@.len() - i,
{
    if i >= s.len() {
        let r: Vec<Vec<u8>> = Vec::new();
        proof {
            assert(r.deep_view() =~~= spec_lines_from(s@, i as int));
        }
        return r;
    }
    proof {
        lemma_find_byte_bounds(s@, 10, i as int);
    }
    match find_byte_from(s, 10, i) {
        Some(k) => {
            let end = if k > i && s[k - 1] == 13 {
                k - 1
            } else {
                k
            };
            let line = copy_range(s, i, end);
            proof {
                assert(line@ =~= spec_strip_cr(s@.subrange(i as int, k as int))) by {
                    assert(s@.subrange(i as int, k as int).len() == k - i);
                    if k > i && s@[k - 1] == 13 {
                        assert(s@.subrange(i as int, k as int).last() == s@[k - 1]);
                        assert(s@.subrange(i as int, k as int).drop_last() =~= s@.subrange(
                            i as int,
                            k - 1,
                        ));
                    }
                }
            }
            let mut r: Vec<Vec<u8>> = Vec::new();
            r.push(line);
            let mut rest = lines_from(s, k + 1);
            let ghost rest_dv = rest.deep_view();
            r.append(&mut rest);
            proof {
                assert(r.deep_view() =~~= Seq::empty().push(line@) + rest_dv);
            }
            r
        },
        None => {
            let line = copy_range(s, i, s.len());
            let mut r: Vec<Vec<u8>> = Vec::new();
            r.push(line);
            proof {
                assert(r.deep_view() =~~= spec_lines_from(s@, i as int));
            }
            r
        },
    }
}

/// First position at or after `i` that holds whitespace (or the length).
pub open spec fn spec_token_end(s: Seq<u8>, i: int) -> int
    decreases s.len() - i,
{
    if i < 0 || i >= s.len() {
        s.len() as int
    } else if is_ws(s[i]) {
        i
    } else {
        spec_token_end(s, i + 1)
    }
}

pub proof fn lemma_token_end_bounds(s: Seq<u8>, i: int)
    requires
        0 <= i <= s.len(),
    ensures
        i <= spec_token_end(s, i) <= s.len(),
    decreases s.len() - i,
{
    if i < s.len() && !is_ws(s[i]) {
        lemma_token_end_bounds(s, i + 1);
    }
}

/// The whitespace-separated tokens of `s` from position `i` on.
pub open spec fn spec_tokens_from(s: Seq<u8>, i: int) -> Seq<Seq<u8>>
    decreases s.len() - i,
{
    if i < 0 || i >= s.len() {
        Seq::empty()
    } else if is_ws(s[i]) {
        spec_tokens_from(s, i + 1)
    } else {
        let e = if i < spec_token_end(s, i) <= s.len() {
            spec_token_end(s, i)
        } else {
            s.len() as int
        };
        Seq::empty().push(s.subrange(i, e)) + spec_tokens_from(s, e)
    }
}

/// The whitespace-separated tokens of `s`.
pub open spec fn spec_tokens(s: Seq<u8>) -> Seq<Seq<u8>> {
    spec_tokens_from(s, 0)
}

/// Split on runs of ASCII whitespace; tokens are never empty.
pub fn split_tokens(s: &[u8]) -> (r: Vec<Vec<u8>>)
    ensures
        r.deep_view() == spec_tokens(s@),
{
    tokens_from(s, 0)
}

fn tokens_from(s: &[u8], i: usize) -> (r: Vec<Vec<u8>>)
    ensures
        r.deep_view() == spec_tokens_from(s@, i as int),
    decreases s@.len() - i,
{
    if i >= s.len() {
        let r: Vec<Vec<u8>> = Vec::new();
        proof {
            assert(r.deep_view() =~~= spec_tokens_from(s@, i as int));
        }
        return r;
    }
    let b = s[i];
    if b == 32 || b == 9 || b == 13 || b == 10 {
        tokens_from(s, i + 1)
    } else {
        proof {
            lemma_token_end_bounds(s@, i + 1);
        }
        let e = token_end_from(s, i + 1);
        proof {
            assert(spec_token_end(s@, i as int) == spec_token_end(s@, i + 1));
        }
        let tok = copy_range(s, i, e);
        let mut r: Vec<Vec<u8>> = Vec::new();
        r.push(tok);
        let mut rest = tokens_from(s, e);
        let ghost rest_dv = rest.deep_view();
        r.append(&mut rest);
        proof {
            assert(r.deep_view() =~~= Seq::empty().push(tok@) + rest_dv);
        }
        r
    }
}

fn token_end_from(s: &[u8], i: usize) -> (e: usize)
    requires
        i <= s@.len(),
    ensures
        e as int == spec_token_end(s@, i as int),
        i <= e <= s@.len(),
    decreases s@.len() - i,
{
    if i >= s.len() {
        return s.len();
    }
    let b = s[i];
    if b == 32 || b == 9 || b == 13 || b == 10 {
        i
    } else {
        token_end_from(s, i + 1)
    }
}

/// Whether `s` starts with `p`.
pub open spec fn spec_starts_with(s: Seq<u8>, p: Seq<u8>) -> bool {
    spec_matches_at(s, 0, p)
}

pub fn starts_with(s: &[u8], p: &[u8]) -> (r: bool)
    ensures
        r == spec_starts_with(s@, p@),
{
    matches_at(s, 0, p)
}

/// Whether one of the byte strings equals `x`.
pub open spec fn spec_contains_bytes(seqs: Seq<Seq<u8>>, x: Seq<u8>, i: int) -> bool
    decreases seqs.len() - i,
{
    if i < 0 || i >= seqs.len() {
        false
    } else if seqs[i] == x {
        true
    } else {
        spec_contains_bytes(seqs, x, i + 1)
    }
}

pub fn contains_bytes(seqs: &Vec<Vec<u8>>, x: &[u8]) -> (r: bool)
    ensures
        r == spec_contains_bytes(seqs.deep_view(), x@, 0),
{
    let ghost sv = seqs.deep_view();
    let mut i: usize = 0;
    while i < seqs.len()
        invariant
            0 <= i <= seqs@.len(),
            sv == seqs.deep_view(),
            sv.len() == seqs@.len(),
            forall|k: int| 0 <= k < sv.len() ==> sv[k] == seqs@[k]@,
            spec_contains_bytes(sv, x@, 0) == spec_contains_bytes(sv, x@, i as int),
        decreases seqs@.len() - i,
    {
        if eq_bytes(seqs[i].as_slice(), x) {
            return true;
        }
        i = i + 1;
    }
    false
}

/// `s` with every occurrence of the suffix removed from its end.
pub open spec fn spec_strip_suffix_all(s: Seq<u8>, suffix: Seq<u8>) -> Seq<u8>
    decreases s.len(),
{
    if suffix.len() > 0 && s.len() >= suffix.len() && s.subrange(
        s.len() - suffix.len(),
        s.len() as int,
    ) == suffix {
        spec_strip_suffix_all(s.subrange(0, s.len() - suffix.len()), suffix)
    } else {
        s
    }
}

/// Remove repeated occurrences of `suffix` from the end of `s`.
pub fn strip_suffix_all(s: &[u8], suffix: &[u8]) -> (v: Vec<u8>)
    ensures
        v@ == spec_strip_suffix_all(s@, suffix@),
{
    let n = s.len();
    let v = strip_suffix_to(s, n, suffix);
    proof {
        assert(s@.subrange(0, n as int) =~= s@);
    }
    v
}

fn strip_suffix_to(s: &[u8], to: usize, suffix: &[u8]) -> (v: Vec<u8>)
    requires
        to <= s@.len(),
    ensures
        v@ == spec_strip_suffix_all(s@.subrange(0, to as int), suffix@),
    decreases to,
{
    let sub_matches = suffix.len() > 0 && to >= suffix.len() && matches_at(
        s,
        to - suffix.len(),
        suffix,
    );
    proof {
        let cur = s@.subrange(0, to as int);
        if suffix@.len() > 0 && to >= suffix@.len() {
            assert(cur.subrange(cur.len() - suffix@.len(), cur.len() as int) =~= s@.subrange(
                to - suffix@.len(),
                to as int,
            ));
            assert(spec_matches_at(s@, to - suffix@.len(), suffix@) == (s@.subrange(
                to - suffix@.len(),
                to as int,
            ) == suffix@));
        }
    }
    if sub_matches {
        let v = strip_suffix_to(s, to - suffix.len(), suffix);
        proof {
            let cur = s@.subrange(0, to as int);
            assert(cur.subrange(0, cur.len() - suffix@.len()) =~= s@.subrange(
                0,
                to - suffix@.len(),
            ));
        }
        v
    } else {
        copy_range(s, 0, to)
    }
}

/// `s` with leading and trailing ASCII whitespace removed.
pub open spec fn spec_trim(s: Seq<u8>) -> Seq<u8>
    decreases s.len(),
{
    if s.len() == 0 {
        s
    } else if is_ws(s[0]) {
        spec_trim(s.subrange(1, s.len() as int))
    } else if is_ws(s.last()) {
        spec_trim(s.drop_last())
    } else {
        s
    }
}

/// Trim ASCII whitespace from both ends.
pub fn trim(s: &[u8]) -> (v: Vec<u8>)
    ensures
        v@ == spec_trim(s@),
{
    let v = trim_range(s, 0, s.len());
    proof {
        assert(s@.subrange(0, s@.len() as int) =~= s@);
    }
    v
}

fn trim_range(s: &[u8], from: usize, to: usize) -> (v: Vec<u8>)
    requires
        0 <= from <= to <= s@.len(),
    ensures
        v@ == spec_trim(s@.subrange(from as int, to as int)),
    decreases to - from,
{
    if from == to {
        let v: Vec<u8> = Vec::new();
        proof {
            assert(v@ =~= s@.subrange(from as int, to as int));
        }
        v
    } else {
        let b0 = s[from];
        let b1 = s[to - 1];
        if b0 == 32 || b0 == 9 || b0 == 13 || b0 == 10 {
            let v = trim_range(s, from + 1, to);
            proof {
                assert(s@.subrange(from as int, to as int).subrange(
                    1,
                    s@.subrange(from as int, to as int).len() as int,
                ) =~= s@.subrange(from + 1, to as int));
            }
            v
        } else if b1 == 32 || b1 == 9 || b1 == 13 || b1 == 10 {
            let v = trim_range(s, from, to - 1);
            proof {
                assert(s@.subrange(from as int, to as int).drop_last() =~= s@.subrange(
                    from as int,
                    to - 1,
                ));
                assert(s@.subrange(from as int, to as int).last() == s@[to - 1]);
            }
            v
        } else {
            let v = copy_range(s, from, to);
            v
        }
    }
}

} // verus!
