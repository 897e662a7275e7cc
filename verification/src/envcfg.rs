//! Rewriting of the panel's environment file: the server port and web root
//! lines are replaced in place, keeping every other line, and appended when
//! missing.

use vstd::prelude::*;

use crate::text::{spec_dec, spec_lines, spec_starts_with, spec_trim};

verus! {

/// A request to change the panel's web root and port.
pub struct UpdateConfigReq {
    pub web_root: String,
    pub port: u16,
}

/// The bytes of `SERVER_PORT=`.
pub open spec fn k_server_port() -> Seq<u8> {
    seq![83u8, 69u8, 82u8, 86u8, 69u8, 82u8, 95u8, 80u8, 79u8, 82u8, 84u8, 61u8]
}

/// The bytes of `WEB_ROOT=`.
pub open spec fn k_web_root() -> Seq<u8> {
    seq![87u8, 69u8, 66u8, 95u8, 82u8, 79u8, 79u8, 84u8, 61u8]
}

/// The normalized web root: trimmed, with exactly one leading slash added
/// when missing, and a trailing slash added unless the result is the bare
/// root.
pub open spec fn spec_normalize_web_root(root: Seq<u8>) -> Seq<u8> {
    let t = spec_trim(root);
    let t1 = if t.len() > 0 && t[0] == 47 {
        t
    } else {
        seq![47u8] + t
    };
    if t1.len() > 0 && t1.last() == 47 {
        t1
    } else if t1 == seq![47u8] {
        t1
    } else {
        t1.push(47)
    }
}

/// Trim the requested web root and pin it between slashes.
pub fn normalize_web_root(root: &[u8]) -> (v: Vec<u8>)
    ensures
        v@ == spec_normalize_web_root(root@),
{
    let t = crate::text::trim(root);
    let mut t1: Vec<u8>;
    if t.len() > 0 && t[0] == 47 {
        t1 = t;
    } else {
        t1 = Vec::new();
        t1.push(47);
        crate::text::push_bytes(&mut t1, t.as_slice());
        proof {
            assert(t1@ =~= seq![47u8] + t@);
        }
    }
    if t1.len() > 0 && t1[t1.len() - 1] == 47 {
        t1
    } else if t1.len() == 1 && t1[0] == 47 {
        proof {
            assert(t1@ =~= seq![47u8]);
        }
        t1
    } else {
        proof {
            if t1@ == seq![47u8] {
                assert(t1@.len() == 1 && t1@[0] == 47);
            }
        }
        t1.push(47);
        t1
    }
}

/// The replacement line for the server port.
pub open spec fn spec_port_line(port: u16) -> Seq<u8> {
    k_server_port() + spec_dec(port as nat)
}

/// The replacement line for the web root.
pub open spec fn spec_root_line(root: Seq<u8>) -> Seq<u8> {
    k_web_root() + root
}

/// One line rewritten: a port or web-root line is replaced whole, every
/// other line is kept.
pub open spec fn spec_env_line(line: Seq<u8>, port: u16, root: Seq<u8>) -> Seq<u8> {
    if spec_starts_with(line, k_server_port()) {
        spec_port_line(port)
    } else if spec_starts_with(line, k_web_root()) {
        spec_root_line(root)
    } else {
        line
    }
}

/// The lines from position `i` on, rewritten.
pub open spec fn spec_env_lines(lines: Seq<Seq<u8>>, i: int, port: u16, root: Seq<u8>) -> Seq<
    Seq<u8>,
>
    decreases lines.len() - i,
{
    if i < 0 || i >= lines.len() {
        Seq::empty()
    } else {
        Seq::empty().push(spec_env_line(lines[i], port, root)) + spec_env_lines(
            lines,
            i + 1,
            port,
            root,
        )
    }
}

/// Whether a line from position `i` on starts with `prefix`.
pub open spec fn spec_has_prefixed(lines: Seq<Seq<u8>>, i: int, prefix: Seq<u8>) -> bool
    decreases lines.len() - i,
{
    if i < 0 || i >= lines.len() {
        false
    } else if spec_starts_with(lines[i], prefix) {
        true
    } else {
        spec_has_prefixed(lines, i + 1, prefix)
    }
}

/// The rewritten line list: every line mapped, with a port line and then a
/// web-root line appended when the content had none.
pub open spec fn spec_final_lines(lines: Seq<Seq<u8>>, port: u16, root: Seq<u8>) -> Seq<Seq<u8>> {
    let mapped = spec_env_lines(lines, 0, port, root);
    let with_port = if spec_has_prefixed(lines, 0, k_server_port()) {
        mapped
    } else {
        mapped.push(spec_port_line(port))
    };
    if spec_has_prefixed(lines, 0, k_web_root()) {
        with_port
    } else {
        with_port.push(spec_root_line(root))
    }
}

/// The lines from position `i` on joined with newlines, no trailing one.
pub open spec fn spec_join_nl(lines: Seq<Seq<u8>>, i: int) -> Seq<u8>
    decreases lines.len() - i,
{
    if i < 0 || i >= lines.len() {
        Seq::empty()
    } else if i == lines.len() - 1 {
        lines[i]
    } else {
        lines[i] + seq![10u8] + spec_join_nl(lines, i + 1)
    }
}

/// The whole rewritten environment file for a port and a normalized root.
pub open spec fn spec_render_env(content: Seq<u8>, port: u16, root: Seq<u8>) -> Seq<u8> {
    spec_join_nl(spec_final_lines(spec_lines(content), port, root), 0)
}

fn server_port_bytes() -> (v: Vec<u8>)
    ensures
        v@ == k_server_port(),
{
    let a: [u8; 12] = [83, 69, 82, 86, 69, 82, 95, 80, 79, 82, 84, 61];
    let v = crate::text::byte_vec(a.as_slice());
    proof {
        assert(v@ =~= k_server_port());
    }
    v
}

fn web_root_bytes() -> (v: Vec<u8>)
    ensures
        v@ == k_web_root(),
{
    let a: [u8; 9] = [87, 69, 66, 95, 82, 79, 79, 84, 61];
    let v = crate::text::byte_vec(a.as_slice());
    proof {
        assert(v@ =~= k_web_root());
    }
    v
}

fn port_line(port: u16) -> (v: Vec<u8>)
    ensures
        v@ == spec_port_line(port),
{
    let mut v = server_port_bytes();
    let mut digits = crate::text::u64_to_dec(port as u64);
    v.append(&mut digits);
    v
}

fn root_line(root: &[u8]) -> (v: Vec<u8>)
    ensures
        v@ == spec_root_line(root@),
{
    let mut v = web_root_bytes();
    crate::text::push_bytes(&mut v, root);
    v
}

fn join_from(lines: &Vec<Vec<u8>>, i: usize) -> (v: Vec<u8>)
    requires
        i <= lines@.len(),
    ensures
        v@ == spec_join_nl(lines.deep_view(), i as int),
    decreases lines@.len() - i,
{
    let ghost lv = lines.deep_view();
    if i >= lines.len() {
        let v: Vec<u8> = Vec::new();
        proof {
            assert(v@ =~= spec_join_nl(lv, i as int));
        }
        return v;
    }
    let mut v = crate::text::byte_vec(lines[i].as_slice());
    proof {
        assert(lv[i as int] == lines@[i as int]@);
    }
    if i + 1 < lines.len() {
        v.push(10);
        let mut rest = join_from(lines, i + 1);
        v.append(&mut rest);
        proof {
            assert(v@ =~= spec_join_nl(lv, i as int));
        }
    }
    v
}

/// Rewrite the environment file content: the port and web-root lines are
/// replaced in place, all other lines are kept verbatim, and either line is
/// appended when missing; lines are joined with newlines and no trailing
/// newline.
pub fn render_env_update(content: &[u8], port: u16, web_root: &[u8]) -> (v: Vec<u8>)
    ensures
        v@ == spec_render_env(content@, port, web_root@),
{
    let lines = crate::text::split_lines(content);
    let ghost lv = lines.deep_view();
    let ksp = server_port_bytes();
    let kwr = web_root_bytes();
    let mut out_lines: Vec<Vec<u8>> = Vec::new();
    let mut has_port = false;
    let mut has_root = false;
    let mut i: usize = 0;
    proof {
        assert(out_lines.deep_view() =~= Seq::<Seq<u8>>::empty());
        assert(spec_env_lines(lv, 0, port, web_root@) == out_lines.deep_view() + spec_env_lines(
            lv,
            0,
            port,
            web_root@,
        ));
    }
    while i < lines.len()
        invariant
            0 <= i <= lines@.len(),
            lv == lines.deep_view(),
            lv.len() == lines@.len(),
            ksp@ == k_server_port(),
            kwr@ == k_web_root(),
            forall|k: int| 0 <= k < lv.len() ==> lv[k] == lines@[k]@,
            spec_env_lines(lv, 0, port, web_root@) == out_lines.deep_view() + spec_env_lines(
                lv,
                i as int,
                port,
                web_root@,
            ),
            spec_has_prefixed(lv, 0, k_server_port()) == (has_port || spec_has_prefixed(
                lv,
                i as int,
                k_server_port(),
            )),
            spec_has_prefixed(lv, 0, k_web_root()) == (has_root || spec_has_prefixed(
                lv,
                i as int,
                k_web_root(),
            )),
        decreases lines@.len() - i,
    {
        let ghost pre = out_lines.deep_view();
        let line = &lines[i];
        let new_line: Vec<u8>;
        if crate::text::starts_with(line.as_slice(), ksp.as_slice()) {
            new_line = port_line(port);
            has_port = true;
        } else if crate::text::starts_with(line.as_slice(), kwr.as_slice()) {
            new_line = root_line(web_root);
            has_root = true;
        } else {
            new_line = crate::text::byte_vec(line.as_slice());
        }
        let ghost nl = new_line@;
        out_lines.push(new_line);
        proof {
            assert(out_lines.deep_view() =~~= pre.push(nl));
            assert(nl == spec_env_line(lv[i as int], port, web_root@));
            assert(pre + (Seq::<Seq<u8>>::empty().push(spec_env_line(lv[i as int], port, web_root@))
                + spec_env_lines(lv, i + 1, port, web_root@)) =~= pre.push(
                spec_env_line(lv[i as int], port, web_root@),
            ) + spec_env_lines(lv, i + 1, port, web_root@));
        }
        i = i + 1;
    }
    proof {
        assert(out_lines.deep_view() + Seq::<Seq<u8>>::empty() =~= out_lines.deep_view());
    }
    if !has_port {
        let ghost pre = out_lines.deep_view();
        let pl = port_line(port);
        let ghost plv = pl@;
        out_lines.push(pl);
        proof {
            assert(out_lines.deep_view() =~~= pre.push(plv));
        }
    }
    if !has_root {
        let ghost pre = out_lines.deep_view();
        let rl = root_line(web_root);
        let ghost rlv = rl@;
        out_lines.push(rl);
        proof {
            assert(out_lines.deep_view() =~~= pre.push(rlv));
        }
    }
    proof {
        assert(out_lines.deep_view() =~~= spec_final_lines(lv, port, web_root@));
    }
    join_from(&out_lines, 0)
}

} // verus!
