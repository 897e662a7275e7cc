//! Log accounting: extracts traffic samples from structured log lines.
//!
//! A traffic line carries a fixed marker token and three whitespace-delimited
//! key-value fields, in any order. Lines without the marker, with a missing
//! field, or with a non-numeric value are silently skipped: partial lines
//! from a live log are expected.

use vstd::prelude::*;

use crate::model::{SampleSpec, TrafficSample};
use crate::text::{
    eq_bytes, spec_parse_u64, spec_starts_with, spec_tokens, split_tokens, starts_with,
};

verus! {

/// The marker token a traffic line must carry.
pub open spec fn spec_marker() -> Seq<u8> {
    seq![91u8, 84u8, 82u8, 65u8, 70u8, 70u8, 73u8, 67u8, 93u8]
}

/// Whether one of the tokens is exactly the marker.
pub open spec fn spec_has_marker(toks: Seq<Seq<u8>>, i: int) -> bool
    decreases toks.len() - i,
{
    if i < 0 || i >= toks.len() {
        false
    } else if toks[i] == spec_marker() {
        true
    } else {
        spec_has_marker(toks, i + 1)
    }
}

/// The value of the first token that starts with `key`, without the key.
pub open spec fn spec_field(toks: Seq<Seq<u8>>, key: Seq<u8>, i: int) -> Option<Seq<u8>>
    decreases toks.len() - i,
{
    if i < 0 || i >= toks.len() {
        None
    } else if spec_starts_with(toks[i], key) {
        Some(toks[i].subrange(key.len() as int, toks[i].len() as int))
    } else {
        spec_field(toks, key, i + 1)
    }
}

/// The bytes of `tag=`.
pub open spec fn spec_key_tag() -> Seq<u8> {
    seq![116u8, 97u8, 103u8, 61u8]
}

/// The bytes of `up=`.
pub open spec fn spec_key_up() -> Seq<u8> {
    seq![117u8, 112u8, 61u8]
}

/// The bytes of `down=`.
pub open spec fn spec_key_down() -> Seq<u8> {
    seq![100u8, 111u8, 119u8, 110u8, 61u8]
}

/// The sample a log line yields: present exactly when the line carries the
/// marker token, a non-empty `tag=` value, and numeric `up=` and `down=`
/// values, all as whitespace-delimited tokens in any order.
pub open spec fn spec_parse_traffic_line(line: Seq<u8>) -> Option<SampleSpec> {
    let toks = spec_tokens(line);
    if !spec_has_marker(toks, 0) {
        None
    } else {
        match (spec_field(toks, spec_key_tag(), 0), spec_field(toks, spec_key_up(), 0), spec_field(
            toks,
            spec_key_down(),
            0,
        )) {
            (Some(tag), Some(up_raw), Some(down_raw)) => {
                if tag.len() == 0 {
                    None
                } else {
                    match (spec_parse_u64(up_raw), spec_parse_u64(down_raw)) {
                        (Some(up), Some(down)) => Some(
                            SampleSpec { tag: tag, up_delta: up, down_delta: down },
                        ),
                        _ => None,
                    }
                }
            },
            _ => None,
        }
    }
}

fn marker_bytes() -> (v: Vec<u8>)
    ensures
        v@ == spec_marker(),
{
    let mut v: Vec<u8> = Vec::new();
    v.push(91);
    v.push(84);
    v.push(82);
    v.push(65);
    v.push(70);
    v.push(70);
    v.push(73);
    v.push(67);
    v.push(93);
    proof {
        assert(v@ =~= spec_marker());
    }
    v
}

fn has_marker(toks: &Vec<Vec<u8>>) -> (r: bool)
    ensures
        r == spec_has_marker(toks.deep_view(), 0),
{
    let ghost tv = toks.deep_view();
    let marker = marker_bytes();
    let mut i: usize = 0;
    while i < toks.len()
        invariant
            0 <= i <= toks@.len(),
            marker@ == spec_marker(),
            tv == toks.deep_view(),
            tv.len() == toks@.len(),
            forall|k: int| 0 <= k < tv.len() ==> tv[k] == toks@[k]@,
            spec_has_marker(tv, 0) == spec_has_marker(tv, i as int),
        decreases toks@.len() - i,
    {
        if eq_bytes(toks[i].as_slice(), marker.as_slice()) {
            return true;
        }
        i = i + 1;
    }
    false
}

fn field(toks: &Vec<Vec<u8>>, key: &[u8]) -> (r: Option<Vec<u8>>)
    ensures
        match r {
            Some(v) => Some(v@) == spec_field(toks.deep_view(), key@, 0),
            None => spec_field(toks.deep_view(), key@, 0) is None,
        },
{
    let ghost tv = toks.deep_view();
    let mut i: usize = 0;
    while i < toks.len()
        invariant
            0 <= i <= toks@.len(),
            tv == toks.deep_view(),
            tv.len() == toks@.len(),
            forall|k: int| 0 <= k < tv.len() ==> tv[k] == toks@[k]@,
            spec_field(tv, key@, 0) == spec_field(tv, key@, i as int),
        decreases toks@.len() - i,
    {
        let tok = &toks[i];
        if starts_with(tok.as_slice(), key) {
            let v = crate::text::copy_range(tok.as_slice(), key.len(), tok.len());
            return Some(v);
        }
        i = i + 1;
    }
    None
}

fn key_tag() -> (v: Vec<u8>)
    ensures
        v@ == spec_key_tag(),
{
    let mut v: Vec<u8> = Vec::new();
    v.push(116);
    v.push(97);
    v.push(103);
    v.push(61);
    proof {
        assert(v@ =~= spec_key_tag());
    }
    v
}

fn key_up() -> (v: Vec<u8>)
    ensures
        v@ == spec_key_up(),
{
    let mut v: Vec<u8> = Vec::new();
    v.push(117);
    v.push(112);
    v.push(61);
    proof {
        assert(v@ =~= spec_key_up());
    }
    v
}

fn key_down() -> (v: Vec<u8>)
    ensures
        v@ == spec_key_down(),
{
    let mut v: Vec<u8> = Vec::new();
    v.push(100);
    v.push(111);
    v.push(119);
    v.push(110);
    v.push(61);
    proof {
        assert(v@ =~= spec_key_down());
    }
    v
}

/// Parse one log line into a traffic sample, or nothing for a line without
/// the marker, a missing field, an empty tag, or a non-numeric value.
pub fn parse_traffic_line(line: &[u8]) -> (r: Option<TrafficSample>)
    ensures
        match r {
            Some(s) => Some(s@) == spec_parse_traffic_line(line@),
            None => spec_parse_traffic_line(line@) is None,
        },
{
    let toks = split_tokens(line);
    if !has_marker(&toks) {
        return None;
    }
    let tag = match field(&toks, key_tag().as_slice()) {
        Some(t) => t,
        None => {
            return None;
        },
    };
    if tag.len() == 0 {
        return None;
    }
    let up_raw = match field(&toks, key_up().as_slice()) {
        Some(t) => t,
        None => {
            return None;
        },
    };
    let down_raw = match field(&toks, key_down().as_slice()) {
        Some(t) => t,
        None => {
            return None;
        },
    };
    let up = match crate::text::parse_u64(up_raw.as_slice()) {
        Some(n) => n,
        None => {
            return None;
        },
    };
    let down = match crate::text::parse_u64(down_raw.as_slice()) {
        Some(n) => n,
        None => {
            return None;
        },
    };
    Some(TrafficSample { tag: tag, up_delta: up, down_delta: down })
}

/// The samples of a whole log segment, line by line, skipping lines that do
/// not parse.
pub open spec fn spec_parse_traffic_lines(lines: Seq<Seq<u8>>, i: int) -> Seq<SampleSpec>
    decreases lines.len() - i,
{
    if i < 0 || i >= lines.len() {
        Seq::empty()
    } else {
        (match spec_parse_traffic_line(lines[i]) {
            Some(s) => Seq::<SampleSpec>::empty().push(s),
            None => Seq::<SampleSpec>::empty(),
        }) + spec_parse_traffic_lines(lines, i + 1)
    }
}

/// Parse a newly read log segment: every line that parses yields one sample,
/// in log order; all other lines are skipped.
pub fn parse_traffic_segment(segment: &[u8]) -> (samples: Vec<TrafficSample>)
    ensures
        samples.deep_view() == spec_parse_traffic_lines(
            crate::text::spec_lines(segment@),
            0,
        ),
{
    let lines = crate::text::split_lines(segment);
    let ghost lv = lines.deep_view();
    let mut samples: Vec<TrafficSample> = Vec::new();
    let mut i: usize = 0;
    while i < lines.len()
        invariant
            0 <= i <= lines@.len(),
            lv == lines.deep_view(),
            lv.len() == lines@.len(),
            forall|k: int| 0 <= k < lv.len() ==> lv[k] == lines@[k]@,
            spec_parse_traffic_lines(lv, 0) == samples.deep_view() + spec_parse_traffic_lines(
                lv,
                i as int,
            ),
        decreases lines@.len() - i,
    {
        let ghost sm0 = samples.deep_view();
        match parse_traffic_line(lines[i].as_slice()) {
            Some(s) => {
                let ghost sv = s@;
                samples.push(s);
                proof {
                    assert(samples.deep_view() =~= sm0.push(sv));
                    assert(sm0 + (Seq::<SampleSpec>::empty().push(sv) + spec_parse_traffic_lines(
                        lv,
                        i + 1,
                    )) =~= sm0.push(sv) + spec_parse_traffic_lines(lv, i + 1));
                }
            },
            None => {
                proof {
                    assert(sm0 + (Seq::<SampleSpec>::empty() + spec_parse_traffic_lines(lv, i + 1))
                        =~= sm0 + spec_parse_traffic_lines(lv, i + 1));
                }
            },
        }
        i = i + 1;
    }
    proof {
        assert(samples.deep_view() + Seq::<SampleSpec>::empty() =~= samples.deep_view());
    }
    samples
}

/// Where the next read of the log file must start: at the stored offset, or
/// at the beginning again when the file shrank below the stored offset (the
/// file was rotated or truncated).
pub open spec fn spec_next_read_offset(file_size: u64, stored_offset: u64) -> u64 {
    if file_size < stored_offset {
        0
    } else {
        stored_offset
    }
}

/// Rotation handling for the tailed log file.
pub fn next_read_offset(file_size: u64, stored_offset: u64) -> (r: u64)
    ensures
        r == spec_next_read_offset(file_size, stored_offset),
        r <= file_size,
{
    if file_size < stored_offset {
        0
    } else {
        stored_offset
    }
}

} // verus!
