//! Kernel accounting: parses the firewall's accounting chain listings into
//! per-tag absolute byte counters, and extracts the rule comments present in
//! a chain so rules are never inserted twice.

use vstd::prelude::*;

use crate::ledger::spec_sat_add;
use crate::reconcile::{spec_position, CounterEntry, CounterEntrySpec};
use crate::text::{
    spec_find, spec_lines, spec_parse_u64, spec_strip_suffix_all, spec_tokens, spec_trim,
};

verus! {

/// The comment marker bytes `/* xui-` that tag an accounting rule line.
pub open spec fn spec_comment_marker() -> Seq<u8> {
    seq![47u8, 42u8, 32u8, 120u8, 117u8, 105u8, 45u8]
}

/// The bytes of the comment closer ` */`.
pub open spec fn spec_comment_closer() -> Seq<u8> {
    seq![32u8, 42u8, 47u8]
}

/// What one listing line contributes: present when the line carries the
/// comment marker and at least two whitespace-delimited columns. The counter
/// is the second column when numeric, zero otherwise; the tag is everything
/// after the marker with the comment closer and surrounding space removed.
pub open spec fn spec_parse_counter_line(line: Seq<u8>) -> Option<(Seq<u8>, u64)> {
    match spec_find(line, spec_comment_marker()) {
        Some(pos) => {
            let toks = spec_tokens(line);
            if toks.len() < 2 {
                None
            } else {
                let bytes = match spec_parse_u64(toks[1]) {
                    Some(n) => n,
                    None => 0u64,
                };
                let raw = line.subrange(pos + spec_comment_marker().len(), line.len() as int);
                Some((spec_trim(spec_strip_suffix_all(raw, spec_comment_closer())), bytes))
            }
        },
        None => None,
    }
}

/// `stats` with `bytes` added to one direction of the entry for `tag`,
/// capped at the counter width; a tag not yet present gains a fresh entry.
pub open spec fn spec_accumulate(
    stats: Seq<CounterEntrySpec>,
    tag: Seq<u8>,
    bytes: u64,
    is_in: bool,
) -> Seq<CounterEntrySpec> {
    match spec_position(stats, tag, 0) {
        Some(i) => stats.update(
            i,
            if is_in {
                CounterEntrySpec {
                    bytes_in: spec_sat_add(stats[i].bytes_in, bytes),
                    ..stats[i]
                }
            } else {
                CounterEntrySpec {
                    bytes_out: spec_sat_add(stats[i].bytes_out, bytes),
                    ..stats[i]
                }
            },
        ),
        None => stats.push(
            if is_in {
                CounterEntrySpec { tag: tag, bytes_in: bytes, bytes_out: 0u64 }
            } else {
                CounterEntrySpec { tag: tag, bytes_in: 0u64, bytes_out: bytes }
            },
        ),
    }
}

/// A whole chain listing folded into `stats`, line by line: a tag appearing
/// on several rule lines accumulates their counters.
pub open spec fn spec_chain_stats(
    stats: Seq<CounterEntrySpec>,
    lines: Seq<Seq<u8>>,
    i: int,
    is_in: bool,
) -> Seq<CounterEntrySpec>
    decreases lines.len() - i,
{
    if i < 0 || i >= lines.len() {
        stats
    } else {
        match spec_parse_counter_line(lines[i]) {
            Some(tb) => spec_chain_stats(
                spec_accumulate(stats, tb.0, tb.1, is_in),
                lines,
                i + 1,
                is_in,
            ),
            None => spec_chain_stats(stats, lines, i + 1, is_in),
        }
    }
}

fn comment_marker_bytes() -> (v: Vec<u8>)
    ensures
        v@ == spec_comment_marker(),
{
    let mut v: Vec<u8> = Vec::new();
    v.push(47);
    v.push(42);
    v.push(32);
    v.push(120);
    v.push(117);
    v.push(105);
    v.push(45);
    proof {
        assert(v@ =~= spec_comment_marker());
    }
    v
}

fn comment_closer_bytes() -> (v: Vec<u8>)
    ensures
        v@ == spec_comment_closer(),
{
    let mut v: Vec<u8> = Vec::new();
    v.push(32);
    v.push(42);
    v.push(47);
    proof {
        assert(v@ =~= spec_comment_closer());
    }
    v
}

/// Parse one listing line into its tag and byte count, if it is a counter
/// line.
pub fn parse_counter_line(line: &[u8]) -> (r: Option<(Vec<u8>, u64)>)
    ensures
        match r {
            Some(tb) => Some((tb.0@, tb.1)) == spec_parse_counter_line(line@),
            None => spec_parse_counter_line(line@) is None,
        },
{
    let marker = comment_marker_bytes();
    let pos = match crate::text::find_sub(line, marker.as_slice()) {
        Some(p) => p,
        None => {
            return None;
        },
    };
    proof {
        crate::text::lemma_find_sub_bounds(line@, marker@);
    }
    let toks = crate::text::split_tokens(line);
    proof {
        assert(toks.deep_view().len() == toks@.len());
    }
    if toks.len() < 2 {
        return None;
    }
    proof {
        assert(toks.deep_view()[1] == toks@[1]@);
    }
    let bytes = match crate::text::parse_u64(toks[1].as_slice()) {
        Some(n) => n,
        None => 0u64,
    };
    let n = line.len();
    let raw = crate::text::copy_range(line, pos + marker.len(), n);
    let closer = comment_closer_bytes();
    let stripped = crate::text::strip_suffix_all(raw.as_slice(), closer.as_slice());
    let tag = crate::text::trim(stripped.as_slice());
    Some((tag, bytes))
}

fn accumulate(stats: &mut Vec<CounterEntry>, tag: Vec<u8>, bytes: u64, is_in: bool)
    ensures
        final(stats).deep_view() == spec_accumulate(old(stats).deep_view(), tag@, bytes, is_in),
{
    let ghost sv = stats.deep_view();
    proof {
        crate::reconcile::lemma_counter_position_bounds(sv, tag@, 0);
    }
    let mut i: usize = 0;
    while i < stats.len()
        invariant
            0 <= i <= stats@.len(),
            sv == stats.deep_view(),
            stats.deep_view() == old(stats).deep_view(),
            sv.len() == stats@.len(),
            forall|k: int| 0 <= k < sv.len() ==> sv[k] == stats@[k]@,
            spec_position(sv, tag@, 0) == spec_position(sv, tag@, i as int),
        decreases stats@.len() - i,
    {
        let same = crate::text::eq_bytes(stats[i].tag.as_slice(), tag.as_slice());
        if same {
            let new_entry = if is_in {
                CounterEntry {
                    tag: tag,
                    bytes_in: crate::ledger::sat_add(stats[i].bytes_in, bytes),
                    bytes_out: stats[i].bytes_out,
                }
            } else {
                CounterEntry {
                    tag: tag,
                    bytes_in: stats[i].bytes_in,
                    bytes_out: crate::ledger::sat_add(stats[i].bytes_out, bytes),
                }
            };
            stats[i] = new_entry;
            proof {
                assert(stats.deep_view() =~= spec_accumulate(sv, tag@, bytes, is_in));
            }
            return ;
        }
        i = i + 1;
    }
    let entry = if is_in {
        CounterEntry { tag: tag, bytes_in: bytes, bytes_out: 0 }
    } else {
        CounterEntry { tag: tag, bytes_in: 0, bytes_out: bytes }
    };
    stats.push(entry);
    proof {
        assert(stats.deep_view() =~= spec_accumulate(sv, tag@, bytes, is_in));
    }
}

/// Fold one chain listing into the running stats: each counter line adds its
/// bytes to the inbound (`is_in`) or outbound direction of its tag's entry.
pub fn parse_chain_stats(text: &[u8], stats: &mut Vec<CounterEntry>, is_in: bool)
    ensures
        final(stats).deep_view() == spec_chain_stats(
            old(stats).deep_view(),
            spec_lines(text@),
            0,
            is_in,
        ),
{
    let lines = crate::text::split_lines(text);
    let ghost lv = lines.deep_view();
    let ghost s0 = stats.deep_view();
    let mut i: usize = 0;
    while i < lines.len()
        invariant
            0 <= i <= lines@.len(),
            lv == lines.deep_view(),
            lv.len() == lines@.len(),
            forall|k: int| 0 <= k < lv.len() ==> lv[k] == lines@[k]@,
            spec_chain_stats(s0, lv, 0, is_in) == spec_chain_stats(
                stats.deep_view(),
                lv,
                i as int,
                is_in,
            ),
        decreases lines@.len() - i,
    {
        match parse_counter_line(lines[i].as_slice()) {
            Some(tb) => {
                accumulate(stats, tb.0, tb.1, is_in);
            },
            None => {},
        }
        i = i + 1;
    }
}

/// Read both accounting chain listings into per-tag absolute counters: the
/// inbound chain's counter lines feed the inbound direction, the outbound
/// chain's the outbound direction, accumulated by tag in order of first
/// appearance.
pub fn read_iptables_stats(in_listing: &[u8], out_listing: &[u8]) -> (stats: Vec<CounterEntry>)
    ensures
        stats.deep_view() == spec_chain_stats(
            spec_chain_stats(Seq::empty(), spec_lines(in_listing@), 0, true),
            spec_lines(out_listing@),
            0,
            false,
        ),
{
    let mut stats: Vec<CounterEntry> = Vec::new();
    proof {
        assert(stats.deep_view() =~= Seq::<CounterEntrySpec>::empty());
    }
    parse_chain_stats(in_listing, &mut stats, true);
    parse_chain_stats(out_listing, &mut stats, false);
    stats
}

/// The bytes of the comment introducer `--comment `.
pub open spec fn spec_comment_flag() -> Seq<u8> {
    seq![45u8, 45u8, 99u8, 111u8, 109u8, 109u8, 101u8, 110u8, 116u8, 32u8]
}

/// What one rule line contributes to the comment list: everything after
/// `--comment ` with all double quotes removed.
pub open spec fn spec_rule_comment(line: Seq<u8>) -> Option<Seq<u8>> {
    match spec_find(line, spec_comment_flag()) {
        Some(pos) => Some(
            spec_remove_quotes(
                line.subrange(pos + spec_comment_flag().len(), line.len() as int),
            ),
        ),
        None => None,
    }
}

/// The comments of all rule lines of a chain listing, in order.
pub open spec fn spec_rule_comments(lines: Seq<Seq<u8>>, i: int) -> Seq<Seq<u8>>
    decreases lines.len() - i,
{
    if i < 0 || i >= lines.len() {
        Seq::empty()
    } else {
        (match spec_rule_comment(lines[i]) {
            Some(c) => Seq::<Seq<u8>>::empty().push(c),
            None => Seq::<Seq<u8>>::empty(),
        }) + spec_rule_comments(lines, i + 1)
    }
}

fn comment_flag_bytes() -> (v: Vec<u8>)
    ensures
        v@ == spec_comment_flag(),
{
    let mut v: Vec<u8> = Vec::new();
    v.push(45);
    v.push(45);
    v.push(99);
    v.push(111);
    v.push(109);
    v.push(109);
    v.push(101);
    v.push(110);
    v.push(116);
    v.push(32);
    proof {
        assert(v@ =~= spec_comment_flag());
    }
    v
}

/// `s` with every double quote removed.
pub open spec fn spec_remove_quotes(s: Seq<u8>) -> Seq<u8>
    decreases s.len(),
{
    if s.len() == 0 {
        s
    } else if s.last() == 34 {
        spec_remove_quotes(s.drop_last())
    } else {
        spec_remove_quotes(s.drop_last()).push(s.last())
    }
}

fn filter_quotes(s: &[u8]) -> (v: Vec<u8>)
    ensures
        v@ == spec_remove_quotes(s@),
{
    let mut v: Vec<u8> = Vec::new();
    let mut i: usize = 0;
    proof {
        assert(s@.subrange(0, 0) =~= Seq::<u8>::empty());
        assert(v@ =~= Seq::<u8>::empty());
    }
    while i < s.len()
        invariant
            0 <= i <= s@.len(),
            v@ == spec_remove_quotes(s@.subrange(0, i as int)),
        decreases s@.len() - i,
    {
        let ghost pre = s@.subrange(0, i as int);
        proof {
            assert(s@.subrange(0, i + 1).drop_last() =~= pre);
            assert(s@.subrange(0, i + 1).last() == s@[i as int]);
        }
        let b = s[i];
        if b != 34 {
            v.push(b);
        }
        i = i + 1;
    }
    proof {
        assert(s@.subrange(0, s@.len() as int) =~= s@);
    }
    v
}

/// The comments present in a chain listing, one per rule line that names
/// one, with quoting removed: the guard that keeps rule insertion
/// idempotent across ticks.
pub fn extract_rule_comments(listing: &[u8]) -> (comments: Vec<Vec<u8>>)
    ensures
        comments.deep_view() == spec_rule_comments(spec_lines(listing@), 0),
{
    let lines = crate::text::split_lines(listing);
    let ghost lv = lines.deep_view();
    let flag = comment_flag_bytes();
    let mut comments: Vec<Vec<u8>> = Vec::new();
    let mut i: usize = 0;
    while i < lines.len()
        invariant
            0 <= i <= lines@.len(),
            flag@ == spec_comment_flag(),
            lv == lines.deep_view(),
            lv.len() == lines@.len(),
            forall|k: int| 0 <= k < lv.len() ==> lv[k] == lines@[k]@,
            spec_rule_comments(lv, 0) == comments.deep_view() + spec_rule_comments(lv, i as int),
        decreases lines@.len() - i,
    {
        let line = &lines[i];
        let ghost cm0 = comments.deep_view();
        match crate::text::find_sub(line.as_slice(), flag.as_slice()) {
            Some(pos) => {
                proof {
                    crate::text::lemma_find_sub_bounds(line@, flag@);
                }
                let n = line.len();
                let raw = crate::text::copy_range(line.as_slice(), pos + flag.len(), n);
                let c = filter_quotes(raw.as_slice());
                let ghost cv = c@;
                comments.push(c);
                proof {
                    assert(comments.deep_view() =~~= cm0.push(cv));
                    assert(cm0 + (Seq::<Seq<u8>>::empty().push(cv) + spec_rule_comments(lv, i + 1))
                        =~= cm0.push(cv) + spec_rule_comments(lv, i + 1));
                }
            },
            None => {
                proof {
                    assert(cm0 + (Seq::<Seq<u8>>::empty() + spec_rule_comments(lv, i + 1)) =~= cm0
                        + spec_rule_comments(lv, i + 1));
                }
            },
        }
        i = i + 1;
    }
    proof {
        assert(comments.deep_view() + Seq::<Seq<u8>>::empty() =~= comments.deep_view());
    }
    comments
}

} // verus!
