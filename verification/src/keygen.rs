//! Parsing of the key generator's output into a reality key pair.
//!
//! The generator prints one key per line, `Private key: ...` and
//! `Public key: ...`; an alternative generator prints `PrivateKey: ...` and
//! `Password: ...`. The value is what stands between the first and second
//! colon of the trimmed line, trimmed again; a later line overwrites an
//! earlier one.

use vstd::prelude::*;

use crate::text::{spec_find_byte, spec_lines, spec_starts_with, spec_trim};

verus! {

/// The response handed to the caller of key generation.
pub struct RealityKeysResponse {
    pub private_key: String,
    pub public_key: String,
}

/// The characters of an ASCII byte string, one per byte.
pub open spec fn chars_of(b: Seq<u8>) -> Seq<char> {
    Seq::new(b.len(), |i: int| b[i] as char)
}

pub open spec fn spec_all_ascii(b: Seq<u8>) -> bool {
    forall|i: int| 0 <= i < b.len() ==> #[trigger] b[i] < 128
}

/// Relies on String::from_utf8_lossy: bytes below 128 are ASCII, are valid
/// UTF-8, and decode to themselves, one character per byte.
#[verifier::external_body]
fn ascii_string(b: &Vec<u8>) -> (s: String)
    requires
        spec_all_ascii(b@),
    ensures
        s@ == chars_of(b@),
{
    String::from_utf8_lossy(b).into_owned()
}

fn all_ascii(b: &[u8]) -> (r: bool)
    ensures
        r == spec_all_ascii(b@),
{
    let mut i: usize = 0;
    while i < b.len()
        invariant
            0 <= i <= b@.len(),
            forall|k: int| 0 <= k < i ==> #[trigger] b@[k] < 128,
        decreases b@.len() - i,
    {
        if b[i] >= 128 {
            return false;
        }
        i = i + 1;
    }
    true
}

/// The bytes of `Private key:`.
pub open spec fn k_private_line() -> Seq<u8> {
    seq![80u8, 114u8, 105u8, 118u8, 97u8, 116u8, 101u8, 32u8, 107u8, 101u8, 121u8, 58u8]
}

/// The bytes of `Public key:`.
pub open spec fn k_public_line() -> Seq<u8> {
    seq![80u8, 117u8, 98u8, 108u8, 105u8, 99u8, 32u8, 107u8, 101u8, 121u8, 58u8]
}

/// The bytes of `PrivateKey:`.
pub open spec fn k_private_compat() -> Seq<u8> {
    seq![80u8, 114u8, 105u8, 118u8, 97u8, 116u8, 101u8, 75u8, 101u8, 121u8, 58u8]
}

/// The bytes of `Password:`.
pub open spec fn k_password_compat() -> Seq<u8> {
    seq![80u8, 97u8, 115u8, 115u8, 119u8, 111u8, 114u8, 100u8, 58u8]
}

/// The value of a `Prefix: value` line: what stands after the first colon
/// and before the second (or the end), trimmed.
pub open spec fn spec_colon_value(trimmed: Seq<u8>, prefix: Seq<u8>) -> Seq<u8> {
    let rest = trimmed.subrange(prefix.len() as int, trimmed.len() as int);
    let cut = match spec_find_byte(rest, 58, 0) {
        Some(k) => if 0 <= k <= rest.len() {
            rest.subrange(0, k)
        } else {
            rest
        },
        None => rest,
    };
    spec_trim(cut)
}

/// The key pair after scanning the lines from position `i` on, starting
/// from the pair scanned so far.
pub open spec fn spec_scan_keys(
    lines: Seq<Seq<u8>>,
    i: int,
    private_key: Seq<u8>,
    public_key: Seq<u8>,
) -> (Seq<u8>, Seq<u8>)
    decreases lines.len() - i,
{
    if i < 0 || i >= lines.len() {
        (private_key, public_key)
    } else {
        let t = spec_trim(lines[i]);
        if spec_starts_with(t, k_private_line()) {
            spec_scan_keys(lines, i + 1, spec_colon_value(t, k_private_line()), public_key)
        } else if spec_starts_with(t, k_public_line()) {
            spec_scan_keys(lines, i + 1, private_key, spec_colon_value(t, k_public_line()))
        } else if spec_starts_with(t, k_private_compat()) {
            spec_scan_keys(lines, i + 1, spec_colon_value(t, k_private_compat()), public_key)
        } else if spec_starts_with(t, k_password_compat()) {
            spec_scan_keys(lines, i + 1, private_key, spec_colon_value(t, k_password_compat()))
        } else {
            spec_scan_keys(lines, i + 1, private_key, public_key)
        }
    }
}

/// The key pair a generator output yields: both values non-empty and ASCII,
/// or nothing.
pub open spec fn spec_parse_keygen(out: Seq<u8>) -> Option<(Seq<u8>, Seq<u8>)> {
    let pair = spec_scan_keys(spec_lines(out), 0, Seq::empty(), Seq::empty());
    if pair.0.len() == 0 || pair.1.len() == 0 || !spec_all_ascii(pair.0) || !spec_all_ascii(
        pair.1,
    ) {
        None
    } else {
        Some(pair)
    }
}

fn colon_value(trimmed: &[u8], prefix_len: usize) -> (v: Vec<u8>)
    requires
        prefix_len <= trimmed@.len(),
    ensures
        v@ == spec_trim(
            match spec_find_byte(
                trimmed@.subrange(prefix_len as int, trimmed@.len() as int),
                58,
                0,
            ) {
                Some(k) => if 0 <= k <= trimmed@.len() - prefix_len {
                    trimmed@.subrange(prefix_len as int, trimmed@.len() as int).subrange(0, k)
                } else {
                    trimmed@.subrange(prefix_len as int, trimmed@.len() as int)
                },
                None => trimmed@.subrange(prefix_len as int, trimmed@.len() as int),
            },
        ),
{
    let n = trimmed.len();
    let rest = crate::text::copy_range(trimmed, prefix_len, n);
    proof {
        crate::text::lemma_find_byte_bounds(rest@, 58, 0);
    }
    let cut = match crate::text::find_byte_from(rest.as_slice(), 58, 0) {
        Some(k) => crate::text::copy_range(rest.as_slice(), 0, k),
        None => rest,
    };
    crate::text::trim(cut.as_slice())
}

fn private_line_bytes() -> (v: Vec<u8>)
    ensures
        v@ == k_private_line(),
{
    let a: [u8; 12] = [80, 114, 105, 118, 97, 116, 101, 32, 107, 101, 121, 58];
    let v = crate::text::byte_vec(a.as_slice());
    proof {
        assert(v@ =~= k_private_line());
    }
    v
}

fn public_line_bytes() -> (v: Vec<u8>)
    ensures
        v@ == k_public_line(),
{
    let a: [u8; 11] = [80, 117, 98, 108, 105, 99, 32, 107, 101, 121, 58];
    let v = crate::text::byte_vec(a.as_slice());
    proof {
        assert(v@ =~= k_public_line());
    }
    v
}

fn private_compat_bytes() -> (v: Vec<u8>)
    ensures
        v@ == k_private_compat(),
{
    let a: [u8; 11] = [80, 114, 105, 118, 97, 116, 101, 75, 101, 121, 58];
    let v = crate::text::byte_vec(a.as_slice());
    proof {
        assert(v@ =~= k_private_compat());
    }
    v
}

fn password_compat_bytes() -> (v: Vec<u8>)
    ensures
        v@ == k_password_compat(),
{
    let a: [u8; 9] = [80, 97, 115, 115, 119, 111, 114, 100, 58];
    let v = crate::text::byte_vec(a.as_slice());
    proof {
        assert(v@ =~= k_password_compat());
    }
    v
}

/// Parse the key generator's output into a reality key pair: nothing unless
/// the output names both keys with non-empty ASCII values.
pub fn parse_keygen_output(out: &[u8]) -> (r: Option<RealityKeysResponse>)
    ensures
        match r {
            Some(resp) => match spec_parse_keygen(out@) {
                Some(pair) => resp.private_key@ == chars_of(pair.0) && resp.public_key@
                    == chars_of(pair.1),
                None => false,
            },
            None => spec_parse_keygen(out@) is None,
        },
{
    let lines = crate::text::split_lines(out);
    let ghost lv = lines.deep_view();
    let mut private_key: Vec<u8> = Vec::new();
    let mut public_key: Vec<u8> = Vec::new();
    let kpriv = private_line_bytes();
    let kpub = public_line_bytes();
    let kprivc = private_compat_bytes();
    let kpwc = password_compat_bytes();
    let mut i: usize = 0;
    while i < lines.len()
        invariant
            0 <= i <= lines@.len(),
            lv == lines.deep_view(),
            lv.len() == lines@.len(),
            kpriv@ == k_private_line(),
            kpub@ == k_public_line(),
            kprivc@ == k_private_compat(),
            kpwc@ == k_password_compat(),
            forall|k: int| 0 <= k < lv.len() ==> lv[k] == lines@[k]@,
            spec_scan_keys(lv, 0, Seq::empty(), Seq::empty()) == spec_scan_keys(
                lv,
                i as int,
                private_key@,
                public_key@,
            ),
        decreases lines@.len() - i,
    {
        let t = crate::text::trim(lines[i].as_slice());
        if crate::text::starts_with(t.as_slice(), kpriv.as_slice()) {
            private_key = colon_value(t.as_slice(), kpriv.len());
        } else if crate::text::starts_with(t.as_slice(), kpub.as_slice()) {
            public_key = colon_value(t.as_slice(), kpub.len());
        } else if crate::text::starts_with(t.as_slice(), kprivc.as_slice()) {
            private_key = colon_value(t.as_slice(), kprivc.len());
        } else if crate::text::starts_with(t.as_slice(), kpwc.as_slice()) {
            public_key = colon_value(t.as_slice(), kpwc.len());
        }
        i = i + 1;
    }
    if private_key.len() == 0 || public_key.len() == 0 {
        return None;
    }
    if !all_ascii(private_key.as_slice()) || !all_ascii(public_key.as_slice()) {
        return None;
    }
    let priv_s = ascii_string(&private_key);
    let pub_s = ascii_string(&public_key);
    Some(RealityKeysResponse { private_key: priv_s, public_key: pub_s })
}

} // verus!
