//! Config synthesizer: deterministically transforms the tenant records into
//! the proxy engine's wire-format configuration document.
//!
//! Always a full rebuild, idempotent for an unchanged tenant set. The
//! per-tenant normalization turns loosely-typed tenant-authored settings
//! into the engine's strict schema: client entries are reduced to their
//! identifier and label, field aliases are resolved, scalars the engine
//! wants as arrays are coerced, unsupported transport keywords are
//! downgraded, and socket options always carry explicit defaults.

use vstd::prelude::*;

use crate::json::{
    as_bool, as_str, clone_entries, clone_json, deep_entries, deep_list, deep_of, lemma_deep_entries_index,
    lemma_deep_list_index, obj_get, obj_set, serialize_json, spec_as_bool, spec_as_str,
    spec_entries_get, spec_entries_set, spec_obj_get, spec_ser, JsonEntry, JsonSpec, JsonValue,
};
use crate::model::{spec_effective_tag, TenantRecord, TenantSpec};
use crate::text::{spec_dec, u64_to_dec};

verus! {

/// The bytes of `id`.
pub open spec fn k_id() -> Seq<u8> {
    seq![105u8, 100u8]
}

fn b_id() -> (v: Vec<u8>)
    ensures
        v@ == k_id(),
{
    let a: [u8; 2] = [105, 100];
    let v = crate::text::byte_vec(a.as_slice());
    proof {
        assert(v@ =~= k_id());
    }
    v
}

/// The bytes of `password`.
pub open spec fn k_password() -> Seq<u8> {
    seq![112u8, 97u8, 115u8, 115u8, 119u8, 111u8, 114u8, 100u8]
}

fn b_password() -> (v: Vec<u8>)
    ensures
        v@ == k_password(),
{
    let a: [u8; 8] = [112, 97, 115, 115, 119, 111, 114, 100];
    let v = crate::text::byte_vec(a.as_slice());
    proof {
        assert(v@ =~= k_password());
    }
    v
}

/// The bytes of `email`.
pub open spec fn k_email() -> Seq<u8> {
    seq![101u8, 109u8, 97u8, 105u8, 108u8]
}

fn b_email() -> (v: Vec<u8>)
    ensures
        v@ == k_email(),
{
    let a: [u8; 5] = [101, 109, 97, 105, 108];
    let v = crate::text::byte_vec(a.as_slice());
    proof {
        assert(v@ =~= k_email());
    }
    v
}

/// The bytes of `clients`.
pub open spec fn k_clients() -> Seq<u8> {
    seq![99u8, 108u8, 105u8, 101u8, 110u8, 116u8, 115u8]
}

fn b_clients() -> (v: Vec<u8>)
    ensures
        v@ == k_clients(),
{
    let a: [u8; 7] = [99, 108, 105, 101, 110, 116, 115];
    let v = crate::text::byte_vec(a.as_slice());
    proof {
        assert(v@ =~= k_clients());
    }
    v
}

/// The bytes of `decryption`.
pub open spec fn k_decryption() -> Seq<u8> {
    seq![100u8, 101u8, 99u8, 114u8, 121u8, 112u8, 116u8, 105u8, 111u8, 110u8]
}

fn b_decryption() -> (v: Vec<u8>)
    ensures
        v@ == k_decryption(),
{
    let a: [u8; 10] = [100, 101, 99, 114, 121, 112, 116, 105, 111, 110];
    let v = crate::text::byte_vec(a.as_slice());
    proof {
        assert(v@ =~= k_decryption());
    }
    v
}

/// The bytes of `none`.
pub open spec fn k_none() -> Seq<u8> {
    seq![110u8, 111u8, 110u8, 101u8]
}

fn b_none() -> (v: Vec<u8>)
    ensures
        v@ == k_none(),
{
    let a: [u8; 4] = [110, 111, 110, 101];
    let v = crate::text::byte_vec(a.as_slice());
    proof {
        assert(v@ =~= k_none());
    }
    v
}

/// The bytes of `sniffing`.
pub open spec fn k_sniffing() -> Seq<u8> {
    seq![115u8, 110u8, 105u8, 102u8, 102u8, 105u8, 110u8, 103u8]
}

fn b_sniffing() -> (v: Vec<u8>)
    ensures
        v@ == k_sniffing(),
{
    let a: [u8; 8] = [115, 110, 105, 102, 102, 105, 110, 103];
    let v = crate::text::byte_vec(a.as_slice());
    proof {
        assert(v@ =~= k_sniffing());
    }
    v
}

/// The bytes of `enabled`.
pub open spec fn k_enabled() -> Seq<u8> {
    seq![101u8, 110u8, 97u8, 98u8, 108u8, 101u8, 100u8]
}

fn b_enabled() -> (v: Vec<u8>)
    ensures
        v@ == k_enabled(),
{
    let a: [u8; 7] = [101, 110, 97, 98, 108, 101, 100];
    let v = crate::text::byte_vec(a.as_slice());
    proof {
        assert(v@ =~= k_enabled());
    }
    v
}

/// The bytes of `destOverride`.
pub open spec fn k_dest_override() -> Seq<u8> {
    seq![100u8, 101u8, 115u8, 116u8, 79u8, 118u8, 101u8, 114u8, 114u8, 105u8, 100u8, 101u8]
}

fn b_dest_override() -> (v: Vec<u8>)
    ensures
        v@ == k_dest_override(),
{
    let a: [u8; 12] = [100, 101, 115, 116, 79, 118, 101, 114, 114, 105, 100, 101];
    let v = crate::text::byte_vec(a.as_slice());
    proof {
        assert(v@ =~= k_dest_override());
    }
    v
}

/// The bytes of `tls`.
pub open spec fn k_tls() -> Seq<u8> {
    seq![116u8, 108u8, 115u8]
}

fn b_tls() -> (v: Vec<u8>)
    ensures
        v@ == k_tls(),
{
    let a: [u8; 3] = [116, 108, 115];
    let v = crate::text::byte_vec(a.as_slice());
    proof {
        assert(v@ =~= k_tls());
    }
    v
}

/// The bytes of `http`.
pub open spec fn k_http() -> Seq<u8> {
    seq![104u8, 116u8, 116u8, 112u8]
}

fn b_http() -> (v: Vec<u8>)
    ensures
        v@ == k_http(),
{
    let a: [u8; 4] = [104, 116, 116, 112];
    let v = crate::text::byte_vec(a.as_slice());
    proof {
        assert(v@ =~= k_http());
    }
    v
}

/// The bytes of `network`.
pub open spec fn k_network() -> Seq<u8> {
    seq![110u8, 101u8, 116u8, 119u8, 111u8, 114u8, 107u8]
}

fn b_network() -> (v: Vec<u8>)
    ensures
        v@ == k_network(),
{
    let a: [u8; 7] = [110, 101, 116, 119, 111, 114, 107];
    let v = crate::text::byte_vec(a.as_slice());
    proof {
        assert(v@ =~= k_network());
    }
    v
}

/// The bytes of `tcp`.
pub open spec fn k_tcp() -> Seq<u8> {
    seq![116u8, 99u8, 112u8]
}

fn b_tcp() -> (v: Vec<u8>)
    ensures
        v@ == k_tcp(),
{
    let a: [u8; 3] = [116, 99, 112];
    let v = crate::text::byte_vec(a.as_slice());
    proof {
        assert(v@ =~= k_tcp());
    }
    v
}

/// The bytes of `xhttp`.
pub open spec fn k_xhttp() -> Seq<u8> {
    seq![120u8, 104u8, 116u8, 116u8, 112u8]
}

fn b_xhttp() -> (v: Vec<u8>)
    ensures
        v@ == k_xhttp(),
{
    let a: [u8; 5] = [120, 104, 116, 116, 112];
    let v = crate::text::byte_vec(a.as_slice());
    proof {
        assert(v@ =~= k_xhttp());
    }
    v
}

/// The bytes of `security`.
pub open spec fn k_security() -> Seq<u8> {
    seq![115u8, 101u8, 99u8, 117u8, 114u8, 105u8, 116u8, 121u8]
}

fn b_security() -> (v: Vec<u8>)
    ensures
        v@ == k_security(),
{
    let a: [u8; 8] = [115, 101, 99, 117, 114, 105, 116, 121];
    let v = crate::text::byte_vec(a.as_slice());
    proof {
        assert(v@ =~= k_security());
    }
    v
}

/// The bytes of `reality`.
pub open spec fn k_reality() -> Seq<u8> {
    seq![114u8, 101u8, 97u8, 108u8, 105u8, 116u8, 121u8]
}

fn b_reality() -> (v: Vec<u8>)
    ensures
        v@ == k_reality(),
{
    let a: [u8; 7] = [114, 101, 97, 108, 105, 116, 121];
    let v = crate::text::byte_vec(a.as_slice());
    proof {
        assert(v@ =~= k_reality());
    }
    v
}

/// The bytes of `realitySettings`.
pub open spec fn k_reality_settings() -> Seq<u8> {
    seq![114u8, 101u8, 97u8, 108u8, 105u8, 116u8, 121u8, 83u8, 101u8, 116u8, 116u8, 105u8, 110u8, 103u8, 115u8]
}

fn b_reality_settings() -> (v: Vec<u8>)
    ensures
        v@ == k_reality_settings(),
{
    let a: [u8; 15] = [114, 101, 97, 108, 105, 116, 121, 83, 101, 116, 116, 105, 110, 103, 115];
    let v = crate::text::byte_vec(a.as_slice());
    proof {
        assert(v@ =~= k_reality_settings());
    }
    v
}

/// The bytes of `dest`.
pub open spec fn k_dest() -> Seq<u8> {
    seq![100u8, 101u8, 115u8, 116u8]
}

fn b_dest() -> (v: Vec<u8>)
    ensures
        v@ == k_dest(),
{
    let a: [u8; 4] = [100, 101, 115, 116];
    let v = crate::text::byte_vec(a.as_slice());
    proof {
        assert(v@ =~= k_dest());
    }
    v
}

/// The bytes of `www.microsoft.com:443`.
pub open spec fn k_default_dest() -> Seq<u8> {
    seq![119u8, 119u8, 119u8, 46u8, 109u8, 105u8, 99u8, 114u8, 111u8, 115u8, 111u8, 102u8, 116u8, 46u8, 99u8, 111u8, 109u8, 58u8, 52u8, 52u8, 51u8]
}

fn b_default_dest() -> (v: Vec<u8>)
    ensures
        v@ == k_default_dest(),
{
    let a: [u8; 21] = [119, 119, 119, 46, 109, 105, 99, 114, 111, 115, 111, 102, 116, 46, 99, 111, 109, 58, 52, 52, 51];
    let v = crate::text::byte_vec(a.as_slice());
    proof {
        assert(v@ =~= k_default_dest());
    }
    v
}

/// The bytes of `privateKey`.
pub open spec fn k_private_key_camel() -> Seq<u8> {
    seq![112u8, 114u8, 105u8, 118u8, 97u8, 116u8, 101u8, 75u8, 101u8, 121u8]
}

fn b_private_key_camel() -> (v: Vec<u8>)
    ensures
        v@ == k_private_key_camel(),
{
    let a: [u8; 10] = [112, 114, 105, 118, 97, 116, 101, 75, 101, 121];
    let v = crate::text::byte_vec(a.as_slice());
    proof {
        assert(v@ =~= k_private_key_camel());
    }
    v
}

/// The bytes of `private_key`.
pub open spec fn k_private_key_snake() -> Seq<u8> {
    seq![112u8, 114u8, 105u8, 118u8, 97u8, 116u8, 101u8, 95u8, 107u8, 101u8, 121u8]
}

fn b_private_key_snake() -> (v: Vec<u8>)
    ensures
        v@ == k_private_key_snake(),
{
    let a: [u8; 11] = [112, 114, 105, 118, 97, 116, 101, 95, 107, 101, 121];
    let v = crate::text::byte_vec(a.as_slice());
    proof {
        assert(v@ =~= k_private_key_snake());
    }
    v
}

/// The bytes of `publicKey`.
pub open spec fn k_public_key_camel() -> Seq<u8> {
    seq![112u8, 117u8, 98u8, 108u8, 105u8, 99u8, 75u8, 101u8, 121u8]
}

fn b_public_key_camel() -> (v: Vec<u8>)
    ensures
        v@ == k_public_key_camel(),
{
    let a: [u8; 9] = [112, 117, 98, 108, 105, 99, 75, 101, 121];
    let v = crate::text::byte_vec(a.as_slice());
    proof {
        assert(v@ =~= k_public_key_camel());
    }
    v
}

/// The bytes of `public_key`.
pub open spec fn k_public_key_snake() -> Seq<u8> {
    seq![112u8, 117u8, 98u8, 108u8, 105u8, 99u8, 95u8, 107u8, 101u8, 121u8]
}

fn b_public_key_snake() -> (v: Vec<u8>)
    ensures
        v@ == k_public_key_snake(),
{
    let a: [u8; 10] = [112, 117, 98, 108, 105, 99, 95, 107, 101, 121];
    let v = crate::text::byte_vec(a.as_slice());
    proof {
        assert(v@ =~= k_public_key_snake());
    }
    v
}

/// The bytes of `fingerprint`.
pub open spec fn k_fingerprint() -> Seq<u8> {
    seq![102u8, 105u8, 110u8, 103u8, 101u8, 114u8, 112u8, 114u8, 105u8, 110u8, 116u8]
}

fn b_fingerprint() -> (v: Vec<u8>)
    ensures
        v@ == k_fingerprint(),
{
    let a: [u8; 11] = [102, 105, 110, 103, 101, 114, 112, 114, 105, 110, 116];
    let v = crate::text::byte_vec(a.as_slice());
    proof {
        assert(v@ =~= k_fingerprint());
    }
    v
}

/// The bytes of `chrome`.
pub open spec fn k_chrome() -> Seq<u8> {
    seq![99u8, 104u8, 114u8, 111u8, 109u8, 101u8]
}

fn b_chrome() -> (v: Vec<u8>)
    ensures
        v@ == k_chrome(),
{
    let a: [u8; 6] = [99, 104, 114, 111, 109, 101];
    let v = crate::text::byte_vec(a.as_slice());
    proof {
        assert(v@ =~= k_chrome());
    }
    v
}

/// The bytes of `serverNames`.
pub open spec fn k_server_names() -> Seq<u8> {
    seq![115u8, 101u8, 114u8, 118u8, 101u8, 114u8, 78u8, 97u8, 109u8, 101u8, 115u8]
}

fn b_server_names() -> (v: Vec<u8>)
    ensures
        v@ == k_server_names(),
{
    let a: [u8; 11] = [115, 101, 114, 118, 101, 114, 78, 97, 109, 101, 115];
    let v = crate::text::byte_vec(a.as_slice());
    proof {
        assert(v@ =~= k_server_names());
    }
    v
}

/// The bytes of `serverName`.
pub open spec fn k_server_name() -> Seq<u8> {
    seq![115u8, 101u8, 114u8, 118u8, 101u8, 114u8, 78u8, 97u8, 109u8, 101u8]
}

fn b_server_name() -> (v: Vec<u8>)
    ensures
        v@ == k_server_name(),
{
    let a: [u8; 10] = [115, 101, 114, 118, 101, 114, 78, 97, 109, 101];
    let v = crate::text::byte_vec(a.as_slice());
    proof {
        assert(v@ =~= k_server_name());
    }
    v
}

/// The bytes of `shortIds`.
pub open spec fn k_short_ids() -> Seq<u8> {
    seq![115u8, 104u8, 111u8, 114u8, 116u8, 73u8, 100u8, 115u8]
}

fn b_short_ids() -> (v: Vec<u8>)
    ensures
        v@ == k_short_ids(),
{
    let a: [u8; 8] = [115, 104, 111, 114, 116, 73, 100, 115];
    let v = crate::text::byte_vec(a.as_slice());
    proof {
        assert(v@ =~= k_short_ids());
    }
    v
}

/// The bytes of `shortId`.
pub open spec fn k_short_id() -> Seq<u8> {
    seq![115u8, 104u8, 111u8, 114u8, 116u8, 73u8, 100u8]
}

fn b_short_id() -> (v: Vec<u8>)
    ensures
        v@ == k_short_id(),
{
    let a: [u8; 7] = [115, 104, 111, 114, 116, 73, 100];
    let v = crate::text::byte_vec(a.as_slice());
    proof {
        assert(v@ =~= k_short_id());
    }
    v
}

/// The bytes of `xhttpSettings`.
pub open spec fn k_xhttp_settings() -> Seq<u8> {
    seq![120u8, 104u8, 116u8, 116u8, 112u8, 83u8, 101u8, 116u8, 116u8, 105u8, 110u8, 103u8, 115u8]
}

fn b_xhttp_settings() -> (v: Vec<u8>)
    ensures
        v@ == k_xhttp_settings(),
{
    let a: [u8; 13] = [120, 104, 116, 116, 112, 83, 101, 116, 116, 105, 110, 103, 115];
    let v = crate::text::byte_vec(a.as_slice());
    proof {
        assert(v@ =~= k_xhttp_settings());
    }
    v
}

/// The bytes of `mode`.
pub open spec fn k_mode() -> Seq<u8> {
    seq![109u8, 111u8, 100u8, 101u8]
}

fn b_mode() -> (v: Vec<u8>)
    ensures
        v@ == k_mode(),
{
    let a: [u8; 4] = [109, 111, 100, 101];
    let v = crate::text::byte_vec(a.as_slice());
    proof {
        assert(v@ =~= k_mode());
    }
    v
}

/// The bytes of `auto`.
pub open spec fn k_auto() -> Seq<u8> {
    seq![97u8, 117u8, 116u8, 111u8]
}

fn b_auto() -> (v: Vec<u8>)
    ensures
        v@ == k_auto(),
{
    let a: [u8; 4] = [97, 117, 116, 111];
    let v = crate::text::byte_vec(a.as_slice());
    proof {
        assert(v@ =~= k_auto());
    }
    v
}

/// The bytes of `packet-up`.
pub open spec fn k_packet_up() -> Seq<u8> {
    seq![112u8, 97u8, 99u8, 107u8, 101u8, 116u8, 45u8, 117u8, 112u8]
}

fn b_packet_up() -> (v: Vec<u8>)
    ensures
        v@ == k_packet_up(),
{
    let a: [u8; 9] = [112, 97, 99, 107, 101, 116, 45, 117, 112];
    let v = crate::text::byte_vec(a.as_slice());
    proof {
        assert(v@ =~= k_packet_up());
    }
    v
}

/// The bytes of `path`.
pub open spec fn k_path() -> Seq<u8> {
    seq![112u8, 97u8, 116u8, 104u8]
}

fn b_path() -> (v: Vec<u8>)
    ensures
        v@ == k_path(),
{
    let a: [u8; 4] = [112, 97, 116, 104];
    let v = crate::text::byte_vec(a.as_slice());
    proof {
        assert(v@ =~= k_path());
    }
    v
}

/// The bytes of `/`.
pub open spec fn k_slash() -> Seq<u8> {
    seq![47u8]
}

fn b_slash() -> (v: Vec<u8>)
    ensures
        v@ == k_slash(),
{
    let a: [u8; 1] = [47];
    let v = crate::text::byte_vec(a.as_slice());
    proof {
        assert(v@ =~= k_slash());
    }
    v
}

/// The bytes of `host`.
pub open spec fn k_host() -> Seq<u8> {
    seq![104u8, 111u8, 115u8, 116u8]
}

fn b_host() -> (v: Vec<u8>)
    ensures
        v@ == k_host(),
{
    let a: [u8; 4] = [104, 111, 115, 116];
    let v = crate::text::byte_vec(a.as_slice());
    proof {
        assert(v@ =~= k_host());
    }
    v
}

/// The bytes of `sockopt`.
pub open spec fn k_sockopt() -> Seq<u8> {
    seq![115u8, 111u8, 99u8, 107u8, 111u8, 112u8, 116u8]
}

fn b_sockopt() -> (v: Vec<u8>)
    ensures
        v@ == k_sockopt(),
{
    let a: [u8; 7] = [115, 111, 99, 107, 111, 112, 116];
    let v = crate::text::byte_vec(a.as_slice());
    proof {
        assert(v@ =~= k_sockopt());
    }
    v
}

/// The bytes of `tcpFastOpen`.
pub open spec fn k_tcp_fast_open() -> Seq<u8> {
    seq![116u8, 99u8, 112u8, 70u8, 97u8, 115u8, 116u8, 79u8, 112u8, 101u8, 110u8]
}

fn b_tcp_fast_open() -> (v: Vec<u8>)
    ensures
        v@ == k_tcp_fast_open(),
{
    let a: [u8; 11] = [116, 99, 112, 70, 97, 115, 116, 79, 112, 101, 110];
    let v = crate::text::byte_vec(a.as_slice());
    proof {
        assert(v@ =~= k_tcp_fast_open());
    }
    v
}

/// The bytes of `tcpNoDelay`.
pub open spec fn k_tcp_no_delay() -> Seq<u8> {
    seq![116u8, 99u8, 112u8, 78u8, 111u8, 68u8, 101u8, 108u8, 97u8, 121u8]
}

fn b_tcp_no_delay() -> (v: Vec<u8>)
    ensures
        v@ == k_tcp_no_delay(),
{
    let a: [u8; 10] = [116, 99, 112, 78, 111, 68, 101, 108, 97, 121];
    let v = crate::text::byte_vec(a.as_slice());
    proof {
        assert(v@ =~= k_tcp_no_delay());
    }
    v
}

/// The bytes of `acceptProxyProtocol`.
pub open spec fn k_accept_proxy_protocol() -> Seq<u8> {
    seq![97u8, 99u8, 99u8, 101u8, 112u8, 116u8, 80u8, 114u8, 111u8, 120u8, 121u8, 80u8, 114u8, 111u8, 116u8, 111u8, 99u8, 111u8, 108u8]
}

fn b_accept_proxy_protocol() -> (v: Vec<u8>)
    ensures
        v@ == k_accept_proxy_protocol(),
{
    let a: [u8; 19] = [97, 99, 99, 101, 112, 116, 80, 114, 111, 120, 121, 80, 114, 111, 116, 111, 99, 111, 108];
    let v = crate::text::byte_vec(a.as_slice());
    proof {
        assert(v@ =~= k_accept_proxy_protocol());
    }
    v
}

/// The bytes of `tag`.
pub open spec fn k_tag() -> Seq<u8> {
    seq![116u8, 97u8, 103u8]
}

fn b_tag() -> (v: Vec<u8>)
    ensures
        v@ == k_tag(),
{
    let a: [u8; 3] = [116, 97, 103];
    let v = crate::text::byte_vec(a.as_slice());
    proof {
        assert(v@ =~= k_tag());
    }
    v
}

/// The bytes of `port`.
pub open spec fn k_port() -> Seq<u8> {
    seq![112u8, 111u8, 114u8, 116u8]
}

fn b_port() -> (v: Vec<u8>)
    ensures
        v@ == k_port(),
{
    let a: [u8; 4] = [112, 111, 114, 116];
    let v = crate::text::byte_vec(a.as_slice());
    proof {
        assert(v@ =~= k_port());
    }
    v
}

/// The bytes of `protocol`.
pub open spec fn k_protocol() -> Seq<u8> {
    seq![112u8, 114u8, 111u8, 116u8, 111u8, 99u8, 111u8, 108u8]
}

fn b_protocol() -> (v: Vec<u8>)
    ensures
        v@ == k_protocol(),
{
    let a: [u8; 8] = [112, 114, 111, 116, 111, 99, 111, 108];
    let v = crate::text::byte_vec(a.as_slice());
    proof {
        assert(v@ =~= k_protocol());
    }
    v
}

/// The bytes of `listen`.
pub open spec fn k_listen() -> Seq<u8> {
    seq![108u8, 105u8, 115u8, 116u8, 101u8, 110u8]
}

fn b_listen() -> (v: Vec<u8>)
    ensures
        v@ == k_listen(),
{
    let a: [u8; 6] = [108, 105, 115, 116, 101, 110];
    let v = crate::text::byte_vec(a.as_slice());
    proof {
        assert(v@ =~= k_listen());
    }
    v
}

/// The bytes of `settings`.
pub open spec fn k_settings() -> Seq<u8> {
    seq![115u8, 101u8, 116u8, 116u8, 105u8, 110u8, 103u8, 115u8]
}

fn b_settings() -> (v: Vec<u8>)
    ensures
        v@ == k_settings(),
{
    let a: [u8; 8] = [115, 101, 116, 116, 105, 110, 103, 115];
    let v = crate::text::byte_vec(a.as_slice());
    proof {
        assert(v@ =~= k_settings());
    }
    v
}

/// The bytes of `streamSettings`.
pub open spec fn k_stream_settings_key() -> Seq<u8> {
    seq![115u8, 116u8, 114u8, 101u8, 97u8, 109u8, 83u8, 101u8, 116u8, 116u8, 105u8, 110u8, 103u8, 115u8]
}

fn b_stream_settings_key() -> (v: Vec<u8>)
    ensures
        v@ == k_stream_settings_key(),
{
    let a: [u8; 14] = [115, 116, 114, 101, 97, 109, 83, 101, 116, 116, 105, 110, 103, 115];
    let v = crate::text::byte_vec(a.as_slice());
    proof {
        assert(v@ =~= k_stream_settings_key());
    }
    v
}

/// The bytes of `log`.
pub open spec fn k_log() -> Seq<u8> {
    seq![108u8, 111u8, 103u8]
}

fn b_log() -> (v: Vec<u8>)
    ensures
        v@ == k_log(),
{
    let a: [u8; 3] = [108, 111, 103];
    let v = crate::text::byte_vec(a.as_slice());
    proof {
        assert(v@ =~= k_log());
    }
    v
}

/// The bytes of `access`.
pub open spec fn k_access() -> Seq<u8> {
    seq![97u8, 99u8, 99u8, 101u8, 115u8, 115u8]
}

fn b_access() -> (v: Vec<u8>)
    ensures
        v@ == k_access(),
{
    let a: [u8; 6] = [97, 99, 99, 101, 115, 115];
    let v = crate::text::byte_vec(a.as_slice());
    proof {
        assert(v@ =~= k_access());
    }
    v
}

/// The bytes of `error`.
pub open spec fn k_error_key() -> Seq<u8> {
    seq![101u8, 114u8, 114u8, 111u8, 114u8]
}

fn b_error_key() -> (v: Vec<u8>)
    ensures
        v@ == k_error_key(),
{
    let a: [u8; 5] = [101, 114, 114, 111, 114];
    let v = crate::text::byte_vec(a.as_slice());
    proof {
        assert(v@ =~= k_error_key());
    }
    v
}

/// The bytes of `loglevel`.
pub open spec fn k_loglevel() -> Seq<u8> {
    seq![108u8, 111u8, 103u8, 108u8, 101u8, 118u8, 101u8, 108u8]
}

fn b_loglevel() -> (v: Vec<u8>)
    ensures
        v@ == k_loglevel(),
{
    let a: [u8; 8] = [108, 111, 103, 108, 101, 118, 101, 108];
    let v = crate::text::byte_vec(a.as_slice());
    proof {
        assert(v@ =~= k_loglevel());
    }
    v
}

/// The bytes of `warning`.
pub open spec fn k_warning() -> Seq<u8> {
    seq![119u8, 97u8, 114u8, 110u8, 105u8, 110u8, 103u8]
}

fn b_warning() -> (v: Vec<u8>)
    ensures
        v@ == k_warning(),
{
    let a: [u8; 7] = [119, 97, 114, 110, 105, 110, 103];
    let v = crate::text::byte_vec(a.as_slice());
    proof {
        assert(v@ =~= k_warning());
    }
    v
}

/// The bytes of `api`.
pub open spec fn k_api() -> Seq<u8> {
    seq![97u8, 112u8, 105u8]
}

fn b_api() -> (v: Vec<u8>)
    ensures
        v@ == k_api(),
{
    let a: [u8; 3] = [97, 112, 105];
    let v = crate::text::byte_vec(a.as_slice());
    proof {
        assert(v@ =~= k_api());
    }
    v
}

/// The bytes of `services`.
pub open spec fn k_services() -> Seq<u8> {
    seq![115u8, 101u8, 114u8, 118u8, 105u8, 99u8, 101u8, 115u8]
}

fn b_services() -> (v: Vec<u8>)
    ensures
        v@ == k_services(),
{
    let a: [u8; 8] = [115, 101, 114, 118, 105, 99, 101, 115];
    let v = crate::text::byte_vec(a.as_slice());
    proof {
        assert(v@ =~= k_services());
    }
    v
}

/// The bytes of `HandlerService`.
pub open spec fn k_handler_service() -> Seq<u8> {
    seq![72u8, 97u8, 110u8, 100u8, 108u8, 101u8, 114u8, 83u8, 101u8, 114u8, 118u8, 105u8, 99u8, 101u8]
}

fn b_handler_service() -> (v: Vec<u8>)
    ensures
        v@ == k_handler_service(),
{
    let a: [u8; 14] = [72, 97, 110, 100, 108, 101, 114, 83, 101, 114, 118, 105, 99, 101];
    let v = crate::text::byte_vec(a.as_slice());
    proof {
        assert(v@ =~= k_handler_service());
    }
    v
}

/// The bytes of `StatsService`.
pub open spec fn k_stats_service() -> Seq<u8> {
    seq![83u8, 116u8, 97u8, 116u8, 115u8, 83u8, 101u8, 114u8, 118u8, 105u8, 99u8, 101u8]
}

fn b_stats_service() -> (v: Vec<u8>)
    ensures
        v@ == k_stats_service(),
{
    let a: [u8; 12] = [83, 116, 97, 116, 115, 83, 101, 114, 118, 105, 99, 101];
    let v = crate::text::byte_vec(a.as_slice());
    proof {
        assert(v@ =~= k_stats_service());
    }
    v
}

/// The bytes of `inbounds`.
pub open spec fn k_inbounds() -> Seq<u8> {
    seq![105u8, 110u8, 98u8, 111u8, 117u8, 110u8, 100u8, 115u8]
}

fn b_inbounds() -> (v: Vec<u8>)
    ensures
        v@ == k_inbounds(),
{
    let a: [u8; 8] = [105, 110, 98, 111, 117, 110, 100, 115];
    let v = crate::text::byte_vec(a.as_slice());
    proof {
        assert(v@ =~= k_inbounds());
    }
    v
}

/// The bytes of `outbounds`.
pub open spec fn k_outbounds() -> Seq<u8> {
    seq![111u8, 117u8, 116u8, 98u8, 111u8, 117u8, 110u8, 100u8, 115u8]
}

fn b_outbounds() -> (v: Vec<u8>)
    ensures
        v@ == k_outbounds(),
{
    let a: [u8; 9] = [111, 117, 116, 98, 111, 117, 110, 100, 115];
    let v = crate::text::byte_vec(a.as_slice());
    proof {
        assert(v@ =~= k_outbounds());
    }
    v
}

/// The bytes of `direct`.
pub open spec fn k_direct() -> Seq<u8> {
    seq![100u8, 105u8, 114u8, 101u8, 99u8, 116u8]
}

fn b_direct() -> (v: Vec<u8>)
    ensures
        v@ == k_direct(),
{
    let a: [u8; 6] = [100, 105, 114, 101, 99, 116];
    let v = crate::text::byte_vec(a.as_slice());
    proof {
        assert(v@ =~= k_direct());
    }
    v
}

/// The bytes of `freedom`.
pub open spec fn k_freedom() -> Seq<u8> {
    seq![102u8, 114u8, 101u8, 101u8, 100u8, 111u8, 109u8]
}

fn b_freedom() -> (v: Vec<u8>)
    ensures
        v@ == k_freedom(),
{
    let a: [u8; 7] = [102, 114, 101, 101, 100, 111, 109];
    let v = crate::text::byte_vec(a.as_slice());
    proof {
        assert(v@ =~= k_freedom());
    }
    v
}

/// The bytes of `blocked`.
pub open spec fn k_blocked() -> Seq<u8> {
    seq![98u8, 108u8, 111u8, 99u8, 107u8, 101u8, 100u8]
}

fn b_blocked() -> (v: Vec<u8>)
    ensures
        v@ == k_blocked(),
{
    let a: [u8; 7] = [98, 108, 111, 99, 107, 101, 100];
    let v = crate::text::byte_vec(a.as_slice());
    proof {
        assert(v@ =~= k_blocked());
    }
    v
}

/// The bytes of `blackhole`.
pub open spec fn k_blackhole() -> Seq<u8> {
    seq![98u8, 108u8, 97u8, 99u8, 107u8, 104u8, 111u8, 108u8, 101u8]
}

fn b_blackhole() -> (v: Vec<u8>)
    ensures
        v@ == k_blackhole(),
{
    let a: [u8; 9] = [98, 108, 97, 99, 107, 104, 111, 108, 101];
    let v = crate::text::byte_vec(a.as_slice());
    proof {
        assert(v@ =~= k_blackhole());
    }
    v
}

/// The bytes of `routing`.
pub open spec fn k_routing() -> Seq<u8> {
    seq![114u8, 111u8, 117u8, 116u8, 105u8, 110u8, 103u8]
}

fn b_routing() -> (v: Vec<u8>)
    ensures
        v@ == k_routing(),
{
    let a: [u8; 7] = [114, 111, 117, 116, 105, 110, 103];
    let v = crate::text::byte_vec(a.as_slice());
    proof {
        assert(v@ =~= k_routing());
    }
    v
}

/// The bytes of `domainStrategy`.
pub open spec fn k_domain_strategy() -> Seq<u8> {
    seq![100u8, 111u8, 109u8, 97u8, 105u8, 110u8, 83u8, 116u8, 114u8, 97u8, 116u8, 101u8, 103u8, 121u8]
}

fn b_domain_strategy() -> (v: Vec<u8>)
    ensures
        v@ == k_domain_strategy(),
{
    let a: [u8; 14] = [100, 111, 109, 97, 105, 110, 83, 116, 114, 97, 116, 101, 103, 121];
    let v = crate::text::byte_vec(a.as_slice());
    proof {
        assert(v@ =~= k_domain_strategy());
    }
    v
}

/// The bytes of `IPIfNonMatch`.
pub open spec fn k_ip_if_non_match() -> Seq<u8> {
    seq![73u8, 80u8, 73u8, 102u8, 78u8, 111u8, 110u8, 77u8, 97u8, 116u8, 99u8, 104u8]
}

fn b_ip_if_non_match() -> (v: Vec<u8>)
    ensures
        v@ == k_ip_if_non_match(),
{
    let a: [u8; 12] = [73, 80, 73, 102, 78, 111, 110, 77, 97, 116, 99, 104];
    let v = crate::text::byte_vec(a.as_slice());
    proof {
        assert(v@ =~= k_ip_if_non_match());
    }
    v
}

/// The bytes of `rules`.
pub open spec fn k_rules() -> Seq<u8> {
    seq![114u8, 117u8, 108u8, 101u8, 115u8]
}

fn b_rules() -> (v: Vec<u8>)
    ensures
        v@ == k_rules(),
{
    let a: [u8; 5] = [114, 117, 108, 101, 115];
    let v = crate::text::byte_vec(a.as_slice());
    proof {
        assert(v@ =~= k_rules());
    }
    v
}

/// The bytes of `0.0.0.0`.
pub open spec fn k_wildcard() -> Seq<u8> {
    seq![48u8, 46u8, 48u8, 46u8, 48u8, 46u8, 48u8]
}

fn b_wildcard() -> (v: Vec<u8>)
    ensures
        v@ == k_wildcard(),
{
    let a: [u8; 7] = [48, 46, 48, 46, 48, 46, 48];
    let v = crate::text::byte_vec(a.as_slice());
    proof {
        assert(v@ =~= k_wildcard());
    }
    v
}

/// The bytes of `field`.
pub open spec fn k_field() -> Seq<u8> {
    seq![102u8, 105u8, 101u8, 108u8, 100u8]
}

fn b_field() -> (v: Vec<u8>)
    ensures
        v@ == k_field(),
{
    let a: [u8; 5] = [102, 105, 101, 108, 100];
    let v = crate::text::byte_vec(a.as_slice());
    proof {
        assert(v@ =~= k_field());
    }
    v
}
/// A routing rule of the synthesized document; the fixed routing block
/// carries none, but admin-authored rules use this shape.
pub struct RoutingRule {
    pub rule_type: Vec<u8>,
    pub port: Option<Vec<u8>>,
    pub inbound_tag: Option<Vec<u8>>,
    pub outbound_tag: Option<Vec<u8>>,
    pub ip: Option<Vec<Vec<u8>>>,
    pub domain: Option<Vec<Vec<u8>>>,
    pub protocol: Option<Vec<u8>>,
}

impl Default for RoutingRule {
    /// A field-matching rule with no constraints set.
    fn default() -> (r: RoutingRule)
        ensures
            r.rule_type@ == k_field(),
            r.port is None,
            r.inbound_tag is None,
            r.outbound_tag is None,
            r.ip is None,
            r.domain is None,
            r.protocol is None,
    {
        RoutingRule {
            rule_type: b_field(),
            port: None,
            inbound_tag: None,
            outbound_tag: None,
            ip: None,
            domain: None,
            protocol: None,
        }
    }
}

/// The value for `key`, or `default` when absent.
pub open spec fn spec_get_or(o: JsonSpec, key: Seq<u8>, default: JsonSpec) -> JsonSpec {
    match spec_obj_get(o, key) {
        Some(v) => v,
        None => default,
    }
}

/// The value for `key1`, else for `key2`: alias resolution.
pub open spec fn spec_get2(o: JsonSpec, key1: Seq<u8>, key2: Seq<u8>) -> Option<JsonSpec> {
    match spec_obj_get(o, key1) {
        Some(v) => Some(v),
        None => spec_obj_get(o, key2),
    }
}

/// An engine-required array from a loose value: arrays pass, a non-empty
/// string becomes a one-element array, everything else the empty array.
pub open spec fn spec_coerce_array(v: Option<JsonSpec>) -> JsonSpec {
    match v {
        Some(JsonSpec::Arr(items)) => JsonSpec::Arr(items),
        Some(JsonSpec::Str(s)) => if s.len() == 0 {
            JsonSpec::Arr(Seq::empty())
        } else {
            JsonSpec::Arr(Seq::empty().push(JsonSpec::Str(s)))
        },
        _ => JsonSpec::Arr(Seq::empty()),
    }
}

/// One client entry reduced to what the engine accepts: the identifier
/// (`id` preferred over `password`, stored as `id`) and the optional
/// `email` label; every other field is dropped.
pub open spec fn spec_client(c: JsonSpec) -> JsonSpec {
    let base = Seq::<(Seq<u8>, JsonSpec)>::empty();
    let with_id = match spec_get2(c, k_id(), k_password()) {
        Some(v) => base.push((k_id(), v)),
        None => base,
    };
    let with_email = match spec_obj_get(c, k_email()) {
        Some(e) => with_id.push((k_email(), e)),
        None => with_id,
    };
    JsonSpec::Obj(with_email)
}

/// The normalized client list from position `i` on.
pub open spec fn spec_clients_list(items: Seq<JsonSpec>, i: int) -> Seq<JsonSpec>
    decreases items.len() - i,
{
    if i < 0 || i >= items.len() {
        Seq::empty()
    } else {
        Seq::empty().push(spec_client(items[i])) + spec_clients_list(items, i + 1)
    }
}

/// The client list of a settings document: the tenant-authored `clients`
/// array normalized entry by entry, or empty when absent or not an array.
pub open spec fn spec_clients(settings: Option<JsonSpec>) -> Seq<JsonSpec> {
    match settings {
        Some(s) => match spec_obj_get(s, k_clients()) {
            Some(JsonSpec::Arr(items)) => spec_clients_list(items, 0),
            _ => Seq::empty(),
        },
        None => Seq::empty(),
    }
}

/// The default sniffing block: disabled, with the standard overrides.
pub open spec fn spec_default_sniffing() -> JsonSpec {
    JsonSpec::Obj(
        Seq::empty().push((k_enabled(), JsonSpec::Bool(false))).push(
            (
                k_dest_override(),
                JsonSpec::Arr(
                    Seq::empty().push(JsonSpec::Str(k_tls())).push(JsonSpec::Str(k_http())),
                ),
            ),
        ),
    )
}

/// Tenant-authored sniffing settings pass through when they are an object;
/// anything else gets the default block.
pub open spec fn spec_sniffing_doc(sniffing: Option<JsonSpec>) -> JsonSpec {
    match sniffing {
        Some(JsonSpec::Obj(entries)) => JsonSpec::Obj(entries),
        _ => spec_default_sniffing(),
    }
}

/// The settings block of one synthesized inbound.
pub open spec fn spec_settings_doc(
    settings: Option<JsonSpec>,
    sniffing: Option<JsonSpec>,
) -> JsonSpec {
    JsonSpec::Obj(
        Seq::empty().push((k_clients(), JsonSpec::Arr(spec_clients(settings)))).push(
            (k_decryption(), JsonSpec::Str(k_none())),
        ).push((k_sniffing(), spec_sniffing_doc(sniffing))),
    )
}

/// The members a stream settings normalization starts from: the
/// tenant-authored object's members; no members for a present non-object;
/// the base transport with no security for an absent document.
pub open spec fn spec_base_stream(ss: Option<JsonSpec>) -> Seq<(Seq<u8>, JsonSpec)> {
    match ss {
        Some(JsonSpec::Obj(entries)) => entries,
        Some(_) => Seq::empty(),
        None => Seq::empty().push((k_network(), JsonSpec::Str(k_tcp()))).push(
            (k_security(), JsonSpec::Str(k_none())),
        ),
    }
}

/// Transport normalization: the unsupported transport keyword is downgraded
/// to the base stream transport; a missing or non-string transport becomes
/// the base transport.
pub open spec fn spec_network_norm(es: Seq<(Seq<u8>, JsonSpec)>) -> Seq<(Seq<u8>, JsonSpec)> {
    let network = match spec_entries_get(es, k_network(), 0) {
        Some(v) => match spec_as_str(v) {
            Some(s) => s,
            None => k_tcp(),
        },
        None => k_tcp(),
    };
    let safe = if network == k_xhttp() {
        k_tcp()
    } else {
        network
    };
    spec_entries_set(es, k_network(), JsonSpec::Str(safe))
}

/// The strict reality block rebuilt from a loose one: aliases resolved to
/// their canonical spelling, scalar server-name and short-id coerced to
/// arrays (the deprecated singular members are dropped), a missing
/// fingerprint defaulted to the client hint.
pub open spec fn spec_reality_new(rs: JsonSpec) -> JsonSpec {
    JsonSpec::Obj(
        Seq::empty().push((k_dest(), spec_get_or(rs, k_dest(), JsonSpec::Str(k_default_dest()))))
            .push(
            (
                k_private_key_camel(),
                match spec_get2(rs, k_private_key_camel(), k_private_key_snake()) {
                    Some(v) => v,
                    None => JsonSpec::Str(Seq::empty()),
                },
            ),
        ).push(
            (
                k_public_key_camel(),
                match spec_get2(rs, k_public_key_camel(), k_public_key_snake()) {
                    Some(v) => v,
                    None => JsonSpec::Null,
                },
            ),
        ).push((k_fingerprint(), spec_get_or(rs, k_fingerprint(), JsonSpec::Str(k_chrome()))))
            .push(
            (k_server_names(), spec_coerce_array(spec_get2(rs, k_server_names(), k_server_name()))),
        ).push((k_short_ids(), spec_coerce_array(spec_get2(rs, k_short_ids(), k_short_id())))),
    )
}

/// Security-specific normalization, applied only when the stream's security
/// mode requires it and a reality block is present.
pub open spec fn spec_reality_norm(es: Seq<(Seq<u8>, JsonSpec)>) -> Seq<(Seq<u8>, JsonSpec)> {
    let is_reality = match spec_entries_get(es, k_security(), 0) {
        Some(v) => spec_as_str(v) == Some(k_reality()),
        None => false,
    };
    if is_reality {
        match spec_entries_get(es, k_reality_settings(), 0) {
            Some(rs) => spec_entries_set(es, k_reality_settings(), spec_reality_new(rs)),
            None => es,
        }
    } else {
        es
    }
}

/// Transport-option normalization: the unsupported sub-mode keyword is
/// substituted with the engine's auto-detection mode; path and host carry
/// their defaults.
pub open spec fn spec_xhttp_norm(es: Seq<(Seq<u8>, JsonSpec)>) -> Seq<(Seq<u8>, JsonSpec)> {
    match spec_entries_get(es, k_xhttp_settings(), 0) {
        Some(xh) => {
            let mode = match spec_obj_get(xh, k_mode()) {
                Some(m) => match spec_as_str(m) {
                    Some(s) => s,
                    None => k_auto(),
                },
                None => k_auto(),
            };
            let safe_mode = if mode == k_packet_up() {
                k_auto()
            } else {
                mode
            };
            spec_entries_set(
                es,
                k_xhttp_settings(),
                JsonSpec::Obj(
                    Seq::empty().push((k_mode(), JsonSpec::Str(safe_mode))).push(
                        (k_path(), spec_get_or(xh, k_path(), JsonSpec::Str(k_slash()))),
                    ).push((k_host(), spec_get_or(xh, k_host(), JsonSpec::Str(Seq::empty())))),
                ),
            )
        },
        None => es,
    }
}

/// One socket option flag: the tenant's boolean when stored as a boolean,
/// the explicit default otherwise.
pub open spec fn spec_flag(so: Option<JsonSpec>, key: Seq<u8>, default: bool) -> bool {
    match so {
        Some(v) => match spec_obj_get(v, key) {
            Some(b) => match spec_as_bool(b) {
                Some(x) => x,
                None => default,
            },
            None => default,
        },
        None => default,
    }
}

/// Socket options always emitted with explicit defaults, overridden
/// individually by the tenant's stored settings.
pub open spec fn spec_sockopt_norm(es: Seq<(Seq<u8>, JsonSpec)>) -> Seq<(Seq<u8>, JsonSpec)> {
    let so = spec_entries_get(es, k_sockopt(), 0);
    spec_entries_set(
        es,
        k_sockopt(),
        JsonSpec::Obj(
            Seq::empty().push(
                (k_tcp_fast_open(), JsonSpec::Bool(spec_flag(so, k_tcp_fast_open(), true))),
            ).push((k_tcp_no_delay(), JsonSpec::Bool(spec_flag(so, k_tcp_no_delay(), true)))).push(
                (
                    k_accept_proxy_protocol(),
                    JsonSpec::Bool(spec_flag(so, k_accept_proxy_protocol(), false)),
                ),
            ),
        ),
    )
}

/// The whole normalized stream settings block of one inbound.
pub open spec fn spec_stream_doc(ss: Option<JsonSpec>) -> JsonSpec {
    JsonSpec::Obj(
        spec_sockopt_norm(spec_xhttp_norm(spec_reality_norm(spec_network_norm(spec_base_stream(ss))))),
    )
}

/// The listen address: the stored one, or the wildcard address when empty
/// or absent.
pub open spec fn spec_listen_addr(listen: Option<Seq<u8>>) -> Seq<u8> {
    match listen {
        Some(l) => if l.len() == 0 {
            k_wildcard()
        } else {
            l
        },
        None => k_wildcard(),
    }
}

/// One synthesized inbound document.
pub open spec fn spec_inbound_doc(t: TenantSpec) -> JsonSpec {
    JsonSpec::Obj(
        Seq::empty().push((k_tag(), JsonSpec::Str(spec_effective_tag(t.tag, t.id)))).push(
            (k_port(), JsonSpec::Num(spec_dec(t.port as nat))),
        ).push((k_protocol(), JsonSpec::Str(t.protocol))).push(
            (k_listen(), JsonSpec::Str(spec_listen_addr(t.listen))),
        ).push((k_settings(), spec_settings_doc(t.settings, t.sniffing))).push(
            (k_stream_settings_key(), spec_stream_doc(t.stream_settings)),
        ),
    )
}

/// The synthesized inbound list from position `i` on.
pub open spec fn spec_inbounds(tenants: Seq<TenantSpec>, i: int) -> Seq<JsonSpec>
    decreases tenants.len() - i,
{
    if i < 0 || i >= tenants.len() {
        Seq::empty()
    } else {
        Seq::empty().push(spec_inbound_doc(tenants[i])) + spec_inbounds(tenants, i + 1)
    }
}

/// The fixed logging block.
pub open spec fn spec_log_doc() -> JsonSpec {
    JsonSpec::Obj(
        Seq::empty().push((k_access(), JsonSpec::Str(Seq::empty()))).push(
            (k_error_key(), JsonSpec::Str(Seq::empty())),
        ).push((k_loglevel(), JsonSpec::Str(k_warning()))),
    )
}

/// The fixed management-API block naming the two service names.
pub open spec fn spec_api_doc() -> JsonSpec {
    JsonSpec::Obj(
        Seq::empty().push((k_tag(), JsonSpec::Str(k_api()))).push(
            (
                k_services(),
                JsonSpec::Arr(
                    Seq::empty().push(JsonSpec::Str(k_handler_service())).push(
                        JsonSpec::Str(k_stats_service()),
                    ),
                ),
            ),
        ),
    )
}

/// One always-present outbound target.
pub open spec fn spec_outbound_doc(tag: Seq<u8>, protocol: Seq<u8>) -> JsonSpec {
    JsonSpec::Obj(
        Seq::empty().push((k_tag(), JsonSpec::Str(tag))).push(
            (k_protocol(), JsonSpec::Str(protocol)),
        ),
    )
}

/// The fixed routing block: an IP-preferring domain strategy and no
/// per-tenant rules.
pub open spec fn spec_routing_doc() -> JsonSpec {
    JsonSpec::Obj(
        Seq::empty().push((k_domain_strategy(), JsonSpec::Str(k_ip_if_non_match()))).push(
            (k_rules(), JsonSpec::Arr(Seq::empty())),
        ),
    )
}

/// The whole wire-format configuration document for a tenant set.
pub open spec fn spec_config_doc(tenants: Seq<TenantSpec>) -> JsonSpec {
    JsonSpec::Obj(
        Seq::empty().push((k_log(), spec_log_doc())).push((k_api(), spec_api_doc())).push(
            (k_inbounds(), JsonSpec::Arr(spec_inbounds(tenants, 0))),
        ).push(
            (
                k_outbounds(),
                JsonSpec::Arr(
                    Seq::empty().push(spec_outbound_doc(k_direct(), k_freedom())).push(
                        spec_outbound_doc(k_blocked(), k_blackhole()),
                    ),
                ),
            ),
        ).push((k_routing(), spec_routing_doc())),
    )
}


/// The model of an optional document.
pub open spec fn opt_deep(v: Option<JsonValue>) -> Option<JsonSpec> {
    match v {
        Some(x) => Some(deep_of(x)),
        None => None,
    }
}

/// Append one member.
fn push_member(entries: &mut Vec<JsonEntry>, key: Vec<u8>, value: JsonValue)
    ensures
        deep_entries(final(entries)@) == deep_entries(old(entries)@).push((key@, deep_of(value))),
{
    let ghost k = key@;
    let ghost vv = deep_of(value);
    let ghost pre = entries@;
    entries.push(JsonEntry { key: key, value: value });
    proof {
        lemma_deep_entries_index(pre);
        lemma_deep_entries_index(entries@);
        assert(deep_entries(entries@) =~= deep_entries(pre).push((k, vv)));
    }
}

fn get_or(o: &JsonValue, key: &[u8], default: JsonValue) -> (r: JsonValue)
    ensures
        deep_of(r) == spec_get_or(deep_of(*o), key@, deep_of(default)),
{
    match obj_get(o, key) {
        Some(m) => clone_json(m),
        None => default,
    }
}

fn get2(o: &JsonValue, key1: &[u8], key2: &[u8]) -> (r: Option<JsonValue>)
    ensures
        match r {
            Some(v) => spec_get2(deep_of(*o), key1@, key2@) == Some(deep_of(v)),
            None => spec_get2(deep_of(*o), key1@, key2@) is None,
        },
{
    match obj_get(o, key1) {
        Some(m) => Some(clone_json(m)),
        None => match obj_get(o, key2) {
            Some(m) => Some(clone_json(m)),
            None => None,
        },
    }
}

fn coerce_array(v: Option<JsonValue>) -> (r: JsonValue)
    ensures
        deep_of(r) == spec_coerce_array(opt_deep(v)),
{
    broadcast use {lemma_deep_list_index, lemma_deep_entries_index};

    match v {
        Some(JsonValue::Arr(items)) => JsonValue::Arr(items),
        Some(JsonValue::Str(s)) => {
            if s.len() == 0 {
                let items: Vec<JsonValue> = Vec::new();
                proof {
                    assert(deep_list(items@) =~= Seq::<JsonSpec>::empty());
                }
                JsonValue::Arr(items)
            } else {
                let ghost sv = s@;
                let mut items: Vec<JsonValue> = Vec::new();
                items.push(JsonValue::Str(s));
                proof {
                    assert(deep_list(items@) =~= Seq::empty().push(JsonSpec::Str(sv)));
                }
                JsonValue::Arr(items)
            }
        },
        Some(other) => {
            let items: Vec<JsonValue> = Vec::new();
            proof {
                assert(deep_list(items@) =~= Seq::<JsonSpec>::empty());
            }
            JsonValue::Arr(items)
        },
        None => {
            let items: Vec<JsonValue> = Vec::new();
            proof {
                assert(deep_list(items@) =~= Seq::<JsonSpec>::empty());
            }
            JsonValue::Arr(items)
        },
    }
}

/// One client entry reduced to identifier and label.
fn client_doc(c: &JsonValue) -> (r: JsonValue)
    ensures
        deep_of(r) == spec_client(deep_of(*c)),
{
    let mut es: Vec<JsonEntry> = Vec::new();
    proof {
        assert(deep_entries(es@) =~= Seq::<(Seq<u8>, JsonSpec)>::empty());
    }
    let kid = b_id();
    let kpw = b_password();
    match get2(c, kid.as_slice(), kpw.as_slice()) {
        Some(v) => {
            push_member(&mut es, kid, v);
        },
        None => {},
    }
    let kem = b_email();
    match obj_get(c, kem.as_slice()) {
        Some(m) => {
            let v = clone_json(m);
            push_member(&mut es, kem, v);
        },
        None => {},
    }
    let r = JsonValue::Obj(es);
    proof {
        assert(deep_of(r) =~~= spec_client(deep_of(*c)));
    }
    r
}

/// The normalized client array of one tenant's settings.
#[verifier::loop_isolation(false)]
fn clients_doc(settings: &Option<JsonValue>) -> (r: JsonValue)
    ensures
        deep_of(r) == JsonSpec::Arr(spec_clients(opt_deep(*settings))),
{
    broadcast use {lemma_deep_list_index, lemma_deep_entries_index};

    let mut out: Vec<JsonValue> = Vec::new();
    proof {
        assert(deep_list(out@) =~= Seq::<JsonSpec>::empty());
    }
    let kcl = b_clients();
    match settings {
        Some(s) => {
            match obj_get(s, kcl.as_slice()) {
                Some(m) => {
                    match m {
                        JsonValue::Arr(arr) => {
                            let ghost av = deep_list(arr@);
                            let mut i: usize = 0;
                            proof {
                                assert(spec_clients_list(av, 0) == deep_list(out@)
                                    + spec_clients_list(av, 0));
                            }
                            while i < arr.len()
                                invariant
                                    0 <= i <= arr@.len(),
                                    av.len() == arr@.len(),
                                    spec_clients_list(av, 0) == deep_list(out@)
                                        + spec_clients_list(av, i as int),
                                decreases arr@.len() - i,
                            {
                                let ghost pre = deep_list(out@);
                                let cd = client_doc(&arr[i]);
                                out.push(cd);
                                proof {
                                    assert(deep_list(out@) =~= pre.push(spec_client(av[i as int])));
                                    assert(pre + (Seq::empty().push(spec_client(av[i as int]))
                                        + spec_clients_list(av, i + 1)) =~= pre.push(
                                        spec_client(av[i as int]),
                                    ) + spec_clients_list(av, i + 1));
                                }
                                i = i + 1;
                            }
                            proof {
                                assert(deep_list(out@) + Seq::<JsonSpec>::empty() =~= deep_list(
                                    out@,
                                ));
                            }
                        },
                        _ => {},
                    }
                },
                None => {},
            }
        },
        None => {},
    }
    let r = JsonValue::Arr(out);
    proof {
        assert(deep_of(r) =~~= JsonSpec::Arr(spec_clients(opt_deep(*settings))));
    }
    r
}

/// The sniffing block: the tenant's object, or the default.
fn sniffing_doc(sniffing: &Option<JsonValue>) -> (r: JsonValue)
    ensures
        deep_of(r) == spec_sniffing_doc(opt_deep(*sniffing)),
{
    broadcast use {lemma_deep_list_index, lemma_deep_entries_index};

    match sniffing {
        Some(v) => match v {
            JsonValue::Obj(entries) => {
                let ce = clone_entries(entries);
                JsonValue::Obj(ce)
            },
            _ => default_sniffing(),
        },
        None => default_sniffing(),
    }
}

fn default_sniffing() -> (r: JsonValue)
    ensures
        deep_of(r) == spec_default_sniffing(),
{
    broadcast use {lemma_deep_list_index, lemma_deep_entries_index};

    let mut over: Vec<JsonValue> = Vec::new();
    over.push(JsonValue::Str(b_tls()));
    over.push(JsonValue::Str(b_http()));
    proof {
        assert(deep_list(over@) =~= Seq::empty().push(JsonSpec::Str(k_tls())).push(
            JsonSpec::Str(k_http()),
        ));
    }
    let mut es: Vec<JsonEntry> = Vec::new();
    proof {
        assert(deep_entries(es@) =~= Seq::<(Seq<u8>, JsonSpec)>::empty());
    }
    push_member(&mut es, b_enabled(), JsonValue::Bool(false));
    push_member(&mut es, b_dest_override(), JsonValue::Arr(over));
    let r = JsonValue::Obj(es);
    proof {
        assert(deep_of(r) =~~= spec_default_sniffing());
    }
    r
}

/// The settings block of one inbound.
fn settings_doc(settings: &Option<JsonValue>, sniffing: &Option<JsonValue>) -> (r: JsonValue)
    ensures
        deep_of(r) == spec_settings_doc(opt_deep(*settings), opt_deep(*sniffing)),
{
    let clients = clients_doc(settings);
    let sniff = sniffing_doc(sniffing);
    let mut es: Vec<JsonEntry> = Vec::new();
    proof {
        assert(deep_entries(es@) =~= Seq::<(Seq<u8>, JsonSpec)>::empty());
    }
    push_member(&mut es, b_clients(), clients);
    push_member(&mut es, b_decryption(), JsonValue::Str(b_none()));
    push_member(&mut es, b_sniffing(), sniff);
    let r = JsonValue::Obj(es);
    proof {
        assert(deep_of(r) =~~= spec_settings_doc(opt_deep(*settings), opt_deep(*sniffing)));
    }
    r
}

/// The members a stream normalization starts from.
fn base_stream(ss: &Option<JsonValue>) -> (r: Vec<JsonEntry>)
    ensures
        deep_entries(r@) == spec_base_stream(opt_deep(*ss)),
{
    match ss {
        Some(v) => match v {
            JsonValue::Obj(entries) => clone_entries(entries),
            _ => {
                let es: Vec<JsonEntry> = Vec::new();
                proof {
                    assert(deep_entries(es@) =~= Seq::<(Seq<u8>, JsonSpec)>::empty());
                }
                es
            },
        },
        None => {
            let mut es: Vec<JsonEntry> = Vec::new();
            proof {
                assert(deep_entries(es@) =~= Seq::<(Seq<u8>, JsonSpec)>::empty());
            }
            push_member(&mut es, b_network(), JsonValue::Str(b_tcp()));
            push_member(&mut es, b_security(), JsonValue::Str(b_none()));
            proof {
                assert(deep_entries(es@) =~= spec_base_stream(opt_deep(*ss)));
            }
            es
        },
    }
}

fn network_norm(es: &mut Vec<JsonEntry>)
    ensures
        deep_entries(final(es)@) == spec_network_norm(deep_entries(old(es)@)),
{
    let knet = b_network();
    let network: Vec<u8> = match crate::json::entries_get(es, knet.as_slice()) {
        Some(m) => match as_str(m) {
            Some(s) => crate::text::byte_vec(s.as_slice()),
            None => b_tcp(),
        },
        None => b_tcp(),
    };
    let kx = b_xhttp();
    let safe = if crate::text::eq_bytes(network.as_slice(), kx.as_slice()) {
        b_tcp()
    } else {
        network
    };
    obj_set(es, knet, JsonValue::Str(safe));
}

/// The strict reality block rebuilt from a loose one.
fn reality_new(rs: &JsonValue) -> (r: JsonValue)
    ensures
        deep_of(r) == spec_reality_new(deep_of(*rs)),
{
    let mut es: Vec<JsonEntry> = Vec::new();
    proof {
        assert(deep_entries(es@) =~= Seq::<(Seq<u8>, JsonSpec)>::empty());
    }
    let kdest = b_dest();
    let dest = get_or(rs, kdest.as_slice(), JsonValue::Str(b_default_dest()));
    push_member(&mut es, kdest, dest);

    let kpriv = b_private_key_camel();
    let priv_v = match get2(rs, kpriv.as_slice(), b_private_key_snake().as_slice()) {
        Some(v) => v,
        None => JsonValue::Str(Vec::new()),
    };
    push_member(&mut es, kpriv, priv_v);

    let kpub = b_public_key_camel();
    let pub_v = match get2(rs, kpub.as_slice(), b_public_key_snake().as_slice()) {
        Some(v) => v,
        None => JsonValue::Null,
    };
    push_member(&mut es, kpub, pub_v);

    let kfp = b_fingerprint();
    let fp = get_or(rs, kfp.as_slice(), JsonValue::Str(b_chrome()));
    push_member(&mut es, kfp, fp);

    let ksn = b_server_names();
    let sn = coerce_array(get2(rs, ksn.as_slice(), b_server_name().as_slice()));
    push_member(&mut es, ksn, sn);

    let ksi = b_short_ids();
    let si = coerce_array(get2(rs, ksi.as_slice(), b_short_id().as_slice()));
    push_member(&mut es, ksi, si);

    let r = JsonValue::Obj(es);
    proof {
        assert(deep_of(r) =~~= spec_reality_new(deep_of(*rs)));
    }
    r
}

fn reality_norm(es: &mut Vec<JsonEntry>)
    ensures
        deep_entries(final(es)@) == spec_reality_norm(deep_entries(old(es)@)),
{
    let ksec = b_security();
    let kreal = b_reality();
    let is_reality = match crate::json::entries_get(es, ksec.as_slice()) {
        Some(m) => match as_str(m) {
            Some(s) => crate::text::eq_bytes(s.as_slice(), kreal.as_slice()),
            None => false,
        },
        None => false,
    };
    if is_reality {
        let krs = b_reality_settings();
        let rs_c: Option<JsonValue> = match crate::json::entries_get(es, krs.as_slice()) {
            Some(m) => Some(clone_json(m)),
            None => None,
        };
        match rs_c {
            Some(rs) => {
                let doc = reality_new(&rs);
                obj_set(es, krs, doc);
            },
            None => {},
        }
    }
}

fn xhttp_norm(es: &mut Vec<JsonEntry>)
    ensures
        deep_entries(final(es)@) == spec_xhttp_norm(deep_entries(old(es)@)),
{
    let kxh = b_xhttp_settings();
    let xh_c: Option<JsonValue> = match crate::json::entries_get(es, kxh.as_slice()) {
        Some(m) => Some(clone_json(m)),
        None => None,
    };
    match xh_c {
        Some(xh) => {
            let kmode = b_mode();
            let mode: Vec<u8> = match obj_get(&xh, kmode.as_slice()) {
                Some(m) => match as_str(m) {
                    Some(s) => crate::text::byte_vec(s.as_slice()),
                    None => b_auto(),
                },
                None => b_auto(),
            };
            let kpu = b_packet_up();
            let safe_mode = if crate::text::eq_bytes(mode.as_slice(), kpu.as_slice()) {
                b_auto()
            } else {
                mode
            };
            let mut xes: Vec<JsonEntry> = Vec::new();
            proof {
                assert(deep_entries(xes@) =~= Seq::<(Seq<u8>, JsonSpec)>::empty());
            }
            push_member(&mut xes, kmode, JsonValue::Str(safe_mode));
            let kpath = b_path();
            let path = get_or(&xh, kpath.as_slice(), JsonValue::Str(b_slash()));
            push_member(&mut xes, kpath, path);
            let khost = b_host();
            let host = get_or(&xh, khost.as_slice(), JsonValue::Str(Vec::new()));
            push_member(&mut xes, khost, host);
            obj_set(es, kxh, JsonValue::Obj(xes));
            proof {
                assert(deep_entries(es@) =~~= spec_xhttp_norm(deep_entries(old(es)@)));
            }
        },
        None => {},
    }
}

fn flag_of(v: &JsonValue, key: &[u8], default: bool) -> (r: bool)
    ensures
        r == spec_flag(Some(deep_of(*v)), key@, default),
{
    match obj_get(v, key) {
        Some(b) => match as_bool(b) {
            Some(x) => x,
            None => default,
        },
        None => default,
    }
}

fn sockopt_norm(es: &mut Vec<JsonEntry>)
    ensures
        deep_entries(final(es)@) == spec_sockopt_norm(deep_entries(old(es)@)),
{
    let kso = b_sockopt();
    let kfo = b_tcp_fast_open();
    let knd = b_tcp_no_delay();
    let kap = b_accept_proxy_protocol();
    let mut fast_open = true;
    let mut no_delay = true;
    let mut accept_pp = false;
    match crate::json::entries_get(es, kso.as_slice()) {
        Some(m) => {
            fast_open = flag_of(m, kfo.as_slice(), true);
            no_delay = flag_of(m, knd.as_slice(), true);
            accept_pp = flag_of(m, kap.as_slice(), false);
        },
        None => {},
    }
    let mut ses: Vec<JsonEntry> = Vec::new();
    proof {
        assert(deep_entries(ses@) =~= Seq::<(Seq<u8>, JsonSpec)>::empty());
    }
    push_member(&mut ses, kfo, JsonValue::Bool(fast_open));
    push_member(&mut ses, knd, JsonValue::Bool(no_delay));
    push_member(&mut ses, kap, JsonValue::Bool(accept_pp));
    obj_set(es, kso, JsonValue::Obj(ses));
    proof {
        assert(deep_entries(es@) =~~= spec_sockopt_norm(deep_entries(old(es)@)));
    }
}

/// The whole normalized stream settings block of one inbound.
fn stream_doc(ss: &Option<JsonValue>) -> (r: JsonValue)
    ensures
        deep_of(r) == spec_stream_doc(opt_deep(*ss)),
{
    let mut es = base_stream(ss);
    network_norm(&mut es);
    reality_norm(&mut es);
    xhttp_norm(&mut es);
    sockopt_norm(&mut es);
    JsonValue::Obj(es)
}

/// One synthesized inbound document for a tenant record.
pub fn inbound_doc(t: &TenantRecord) -> (r: JsonValue)
    ensures
        deep_of(r) == spec_inbound_doc(t@),
{
    let mut es: Vec<JsonEntry> = Vec::new();
    proof {
        assert(deep_entries(es@) =~= Seq::<(Seq<u8>, JsonSpec)>::empty());
    }
    let tag = crate::model::effective_tag(&t.tag, t.id);
    push_member(&mut es, b_tag(), JsonValue::Str(tag));
    let port = u64_to_dec(t.port as u64);
    push_member(&mut es, b_port(), JsonValue::Num(port));
    let protocol = crate::text::byte_vec(t.protocol.as_slice());
    push_member(&mut es, b_protocol(), JsonValue::Str(protocol));
    let listen: Vec<u8> = match &t.listen {
        Some(l) => {
            if l.len() == 0 {
                b_wildcard()
            } else {
                crate::text::byte_vec(l.as_slice())
            }
        },
        None => b_wildcard(),
    };
    push_member(&mut es, b_listen(), JsonValue::Str(listen));
    let settings = settings_doc(&t.settings, &t.sniffing);
    push_member(&mut es, b_settings(), settings);
    let stream = stream_doc(&t.stream_settings);
    push_member(&mut es, b_stream_settings_key(), stream);
    let r = JsonValue::Obj(es);
    proof {
        assert(deep_of(r) =~~= spec_inbound_doc(t@));
    }
    r
}

/// The whole wire-format configuration document, rebuilt from the tenant
/// records.
#[verifier::loop_isolation(false)]
pub fn config_doc(tenants: &Vec<TenantRecord>) -> (r: JsonValue)
    ensures
        deep_of(r) == spec_config_doc(tenants.deep_view()),
{
    broadcast use {lemma_deep_list_index, lemma_deep_entries_index};

    let ghost tv = tenants.deep_view();
    let mut inbounds: Vec<JsonValue> = Vec::new();
    proof {
        assert(deep_list(inbounds@) =~= Seq::<JsonSpec>::empty());
        assert(spec_inbounds(tv, 0) == deep_list(inbounds@) + spec_inbounds(tv, 0));
    }
    let mut i: usize = 0;
    while i < tenants.len()
        invariant
            0 <= i <= tenants@.len(),
            tv.len() == tenants@.len(),
            spec_inbounds(tv, 0) == deep_list(inbounds@) + spec_inbounds(tv, i as int),
        decreases tenants@.len() - i,
    {
        let ghost pre = deep_list(inbounds@);
        let doc = inbound_doc(&tenants[i]);
        inbounds.push(doc);
        proof {
            assert(tv[i as int] == tenants@[i as int]@);
            assert(deep_list(inbounds@) =~= pre.push(spec_inbound_doc(tv[i as int])));
            assert(pre + (Seq::empty().push(spec_inbound_doc(tv[i as int])) + spec_inbounds(
                tv,
                i + 1,
            )) =~= pre.push(spec_inbound_doc(tv[i as int])) + spec_inbounds(tv, i + 1));
        }
        i = i + 1;
    }
    proof {
        assert(deep_list(inbounds@) + Seq::<JsonSpec>::empty() =~= deep_list(inbounds@));
    }

    let mut log_es: Vec<JsonEntry> = Vec::new();
    proof {
        assert(deep_entries(log_es@) =~= Seq::<(Seq<u8>, JsonSpec)>::empty());
    }
    push_member(&mut log_es, b_access(), JsonValue::Str(Vec::new()));
    push_member(&mut log_es, b_error_key(), JsonValue::Str(Vec::new()));
    push_member(&mut log_es, b_loglevel(), JsonValue::Str(b_warning()));
    let log_doc = JsonValue::Obj(log_es);
    proof {
        assert(deep_of(log_doc) =~~= spec_log_doc());
    }

    let mut services: Vec<JsonValue> = Vec::new();
    services.push(JsonValue::Str(b_handler_service()));
    services.push(JsonValue::Str(b_stats_service()));
    proof {
        assert(deep_list(services@) =~= Seq::empty().push(JsonSpec::Str(k_handler_service())).push(
            JsonSpec::Str(k_stats_service()),
        ));
    }
    let mut api_es: Vec<JsonEntry> = Vec::new();
    proof {
        assert(deep_entries(api_es@) =~= Seq::<(Seq<u8>, JsonSpec)>::empty());
    }
    push_member(&mut api_es, b_tag(), JsonValue::Str(b_api()));
    push_member(&mut api_es, b_services(), JsonValue::Arr(services));
    let api_doc = JsonValue::Obj(api_es);
    proof {
        assert(deep_of(api_doc) =~~= spec_api_doc());
    }

    let direct = outbound_doc(b_direct(), b_freedom());
    let blocked = outbound_doc(b_blocked(), b_blackhole());
    let mut outbounds: Vec<JsonValue> = Vec::new();
    outbounds.push(direct);
    outbounds.push(blocked);
    proof {
        assert(deep_list(outbounds@) =~= Seq::empty().push(
            spec_outbound_doc(k_direct(), k_freedom()),
        ).push(spec_outbound_doc(k_blocked(), k_blackhole())));
    }

    let mut routing_es: Vec<JsonEntry> = Vec::new();
    proof {
        assert(deep_entries(routing_es@) =~= Seq::<(Seq<u8>, JsonSpec)>::empty());
    }
    push_member(&mut routing_es, b_domain_strategy(), JsonValue::Str(b_ip_if_non_match()));
    let rules: Vec<JsonValue> = Vec::new();
    proof {
        assert(deep_list(rules@) =~= Seq::<JsonSpec>::empty());
    }
    push_member(&mut routing_es, b_rules(), JsonValue::Arr(rules));
    let routing_doc = JsonValue::Obj(routing_es);
    proof {
        assert(deep_of(routing_doc) =~~= spec_routing_doc());
    }

    let mut es: Vec<JsonEntry> = Vec::new();
    proof {
        assert(deep_entries(es@) =~= Seq::<(Seq<u8>, JsonSpec)>::empty());
    }
    push_member(&mut es, b_log(), log_doc);
    push_member(&mut es, b_api(), api_doc);
    push_member(&mut es, b_inbounds(), JsonValue::Arr(inbounds));
    push_member(&mut es, b_outbounds(), JsonValue::Arr(outbounds));
    push_member(&mut es, b_routing(), routing_doc);
    let r = JsonValue::Obj(es);
    proof {
        assert(deep_of(r) =~~= spec_config_doc(tv));
    }
    r
}

fn outbound_doc(tag: Vec<u8>, protocol: Vec<u8>) -> (r: JsonValue)
    ensures
        deep_of(r) == spec_outbound_doc(tag@, protocol@),
{
    let ghost tg = tag@;
    let ghost pr = protocol@;
    let mut es: Vec<JsonEntry> = Vec::new();
    proof {
        assert(deep_entries(es@) =~= Seq::<(Seq<u8>, JsonSpec)>::empty());
    }
    push_member(&mut es, b_tag(), JsonValue::Str(tag));
    push_member(&mut es, b_protocol(), JsonValue::Str(protocol));
    let r = JsonValue::Obj(es);
    proof {
        assert(deep_of(r) =~~= spec_outbound_doc(tg, pr));
    }
    r
}

/// Synthesize the configuration document and serialize it: a full rebuild,
/// a pure function of the tenant records.
pub fn synthesize_config(tenants: &Vec<TenantRecord>) -> (r: Vec<u8>)
    ensures
        r@ == spec_ser(spec_config_doc(tenants.deep_view())),
{
    let doc = config_doc(tenants);
    serialize_json(&doc)
}

/// Synthesis is idempotent: two synthesis runs over one unchanged tenant
/// set produce byte-identical documents.
pub proof fn lemma_synthesis_idempotent(tenants1: Seq<TenantSpec>, tenants2: Seq<TenantSpec>)
    requires
        tenants1 == tenants2,
    ensures
        spec_ser(spec_config_doc(tenants1)) == spec_ser(spec_config_doc(tenants2)),
{
}

} // verus!
