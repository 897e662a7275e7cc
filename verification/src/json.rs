//! A small JSON document tree owned by this library.
//!
//! Tenant-authored settings and the synthesized wire configuration are JSON
//! documents. The tree keeps string and number lexemes as raw bytes exactly
//! as they appear between the delimiters, so serialization is deterministic
//! and byte-faithful. Object members keep their order.

use vstd::prelude::*;

verus! {

/// Mathematical model of a JSON document.
#[verifier::ext_equal]
pub enum JsonSpec {
    Null,
    Bool(bool),
    /// Raw number lexeme.
    Num(Seq<u8>),
    /// Raw string contents between the quotes, escapes kept as written.
    Str(Seq<u8>),
    Arr(Seq<JsonSpec>),
    /// Ordered members.
    Obj(Seq<(Seq<u8>, JsonSpec)>),
}

/// One member of a JSON object.
pub struct JsonEntry {
    pub key: Vec<u8>,
    pub value: JsonValue,
}

/// Executable JSON document tree.
pub enum JsonValue {
    Null,
    Bool(bool),
    /// Raw number lexeme.
    Num(Vec<u8>),
    /// Raw string contents between the quotes, escapes kept as written.
    Str(Vec<u8>),
    Arr(Vec<JsonValue>),
    /// Ordered members.
    Obj(Vec<JsonEntry>),
}

/// The document an executable tree stands for.
pub open spec fn deep_of(v: JsonValue) -> JsonSpec
    decreases v, 2int,
{
    match v {
        JsonValue::Null => JsonSpec::Null,
        JsonValue::Bool(b) => JsonSpec::Bool(b),
        JsonValue::Num(s) => JsonSpec::Num(s@),
        JsonValue::Str(s) => JsonSpec::Str(s@),
        JsonValue::Arr(items) => JsonSpec::Arr(deep_list(items@)),
        JsonValue::Obj(entries) => JsonSpec::Obj(deep_entries(entries@)),
    }
}

/// Element-wise model of an array's items.
pub open spec fn deep_list(items: Seq<JsonValue>) -> Seq<JsonSpec>
    decreases items, 1int,
{
    if items.len() == 0 {
        Seq::empty()
    } else {
        Seq::empty().push(deep_of(items[0])) + deep_list(items.subrange(1, items.len() as int))
    }
}

/// Member-wise model of an object's entries.
pub open spec fn deep_entries(entries: Seq<JsonEntry>) -> Seq<(Seq<u8>, JsonSpec)>
    decreases entries, 1int,
{
    if entries.len() == 0 {
        Seq::empty()
    } else {
        Seq::empty().push((entries[0].key@, deep_of(entries[0].value)))
            + deep_entries(entries.subrange(1, entries.len() as int))
    }
}

impl View for JsonValue {
    type V = JsonSpec;

    open spec fn view(&self) -> JsonSpec {
        deep_of(*self)
    }
}

impl DeepView for JsonValue {
    type V = JsonSpec;

    open spec fn deep_view(&self) -> JsonSpec {
        deep_of(*self)
    }
}

pub broadcast proof fn lemma_deep_list_index(items: Seq<JsonValue>)
    ensures
        (#[trigger] deep_list(items)).len() == items.len(),
        forall|i: int| 0 <= i < items.len() ==> deep_list(items)[i] == deep_of(items[i]),
    decreases items.len(),
{
    if items.len() > 0 {
        lemma_deep_list_index(items.subrange(1, items.len() as int));
        assert forall|i: int| 0 <= i < items.len() implies deep_list(items)[i] == deep_of(
            items[i],
        ) by {
            if i > 0 {
                assert(deep_list(items)[i] == deep_list(items.subrange(1, items.len() as int))[i
                    - 1]);
                assert(items.subrange(1, items.len() as int)[i - 1] == items[i]);
            }
        }
    }
}

pub broadcast proof fn lemma_deep_entries_index(entries: Seq<JsonEntry>)
    ensures
        (#[trigger] deep_entries(entries)).len() == entries.len(),
        forall|i: int|
            0 <= i < entries.len() ==> deep_entries(entries)[i] == (
            entries[i].key@,
            deep_of(entries[i].value),
            ),
    decreases entries.len(),
{
    if entries.len() > 0 {
        lemma_deep_entries_index(entries.subrange(1, entries.len() as int));
        assert forall|i: int|
            0 <= i < entries.len() implies deep_entries(entries)[i] == (
        entries[i].key@,
        deep_of(entries[i].value),
        ) by {
            if i > 0 {
                assert(deep_entries(entries)[i] == deep_entries(
                    entries.subrange(1, entries.len() as int),
                )[i - 1]);
                assert(entries.subrange(1, entries.len() as int)[i - 1] == entries[i]);
            }
        }
    }
}

/// The member of an object for `key`, first occurrence; nothing on any
/// other document.
pub open spec fn spec_obj_get(j: JsonSpec, key: Seq<u8>) -> Option<JsonSpec> {
    match j {
        JsonSpec::Obj(entries) => spec_entries_get(entries, key, 0),
        _ => None,
    }
}

/// First value for `key` among the members from position `i` on.
pub open spec fn spec_entries_get(
    entries: Seq<(Seq<u8>, JsonSpec)>,
    key: Seq<u8>,
    i: int,
) -> Option<JsonSpec>
    decreases entries.len() - i,
{
    if i < 0 || i >= entries.len() {
        None
    } else if entries[i].0 == key {
        Some(entries[i].1)
    } else {
        spec_entries_get(entries, key, i + 1)
    }
}

/// Look a member up in a document; nothing unless the document is an object
/// holding the key.
#[verifier::loop_isolation(false)]
pub fn obj_get<'a>(v: &'a JsonValue, key: &[u8]) -> (r: Option<&'a JsonValue>)
    ensures
        match r {
            Some(m) => spec_obj_get(deep_of(*v), key@) == Some(deep_of(*m)),
            None => spec_obj_get(deep_of(*v), key@) is None,
        },
{
    broadcast use {lemma_deep_list_index, lemma_deep_entries_index};

    match v {
        JsonValue::Obj(entries) => {
            let ghost ev = deep_entries(entries@);
            let mut i: usize = 0;
            while i < entries.len()
                invariant
                    0 <= i <= entries@.len(),
                    ev == deep_entries(entries@),
                    ev.len() == entries@.len(),
                    forall|k: int|
                        0 <= k < entries@.len() ==> ev[k] == (
                        entries@[k].key@,
                        deep_of(entries@[k].value),
                        ),
                    spec_entries_get(ev, key@, 0) == spec_entries_get(ev, key@, i as int),
                decreases entries@.len() - i,
            {
                if crate::text::eq_bytes(entries[i].key.as_slice(), key) {
                    return Some(&entries[i].value);
                }
                i = i + 1;
            }
            None
        },
        _ => None,
    }
}

/// Position of the first member for `key`.
pub open spec fn spec_entries_pos(entries: Seq<(Seq<u8>, JsonSpec)>, key: Seq<u8>, i: int) -> Option<
    int,
>
    decreases entries.len() - i,
{
    if i < 0 || i >= entries.len() {
        None
    } else if entries[i].0 == key {
        Some(i)
    } else {
        spec_entries_pos(entries, key, i + 1)
    }
}

/// The members with `key` bound to `value`: the first member for the key is
/// replaced in place, or a new member is appended.
pub open spec fn spec_entries_set(
    entries: Seq<(Seq<u8>, JsonSpec)>,
    key: Seq<u8>,
    value: JsonSpec,
) -> Seq<(Seq<u8>, JsonSpec)> {
    match spec_entries_pos(entries, key, 0) {
        Some(i) => entries.update(i, (entries[i].0, value)),
        None => entries.push((key, value)),
    }
}

proof fn lemma_entries_pos_bounds(entries: Seq<(Seq<u8>, JsonSpec)>, key: Seq<u8>, i: int)
    requires
        0 <= i,
    ensures
        match spec_entries_pos(entries, key, i) {
            Some(k) => i <= k < entries.len() && entries[k].0 == key,
            None => true,
        },
    decreases entries.len() - i,
{
    if i < entries.len() && entries[i].0 != key {
        lemma_entries_pos_bounds(entries, key, i + 1);
    }
}

/// Bind `key` to `value` among the members: replace the first member for the
/// key, or append a new one.
#[verifier::loop_isolation(false)]
pub fn obj_set(entries: &mut Vec<JsonEntry>, key: Vec<u8>, value: JsonValue)
    ensures
        deep_entries(final(entries)@) == spec_entries_set(
            deep_entries(old(entries)@),
            key@,
            deep_of(value),
        ),
{
    broadcast use {lemma_deep_list_index, lemma_deep_entries_index};

    let ghost ev = deep_entries(entries@);
    proof {
        lemma_entries_pos_bounds(ev, key@, 0);
    }
    let mut i: usize = 0;
    while i < entries.len()
        invariant
            0 <= i <= entries@.len(),
            entries@ == old(entries)@,
            ev == deep_entries(entries@),
            ev.len() == entries@.len(),
            forall|k: int|
                0 <= k < entries@.len() ==> ev[k] == (
                entries@[k].key@,
                deep_of(entries@[k].value),
                ),
            spec_entries_pos(ev, key@, 0) == spec_entries_pos(ev, key@, i as int),
        decreases entries@.len() - i,
    {
        let same = crate::text::eq_bytes(entries[i].key.as_slice(), key.as_slice());
        if same {
            let new_entry = JsonEntry { key: key, value: value };
            entries[i] = new_entry;
            proof {
                lemma_deep_entries_index(entries@);
                assert(deep_entries(entries@) =~= spec_entries_set(ev, new_entry.key@, deep_of(
                    new_entry.value,
                )));
            }
            return ;
        }
        i = i + 1;
    }
    let ghost kv = key@;
    let ghost vv = deep_of(value);
    entries.push(JsonEntry { key: key, value: value });
    proof {
        lemma_deep_entries_index(entries@);
        assert(deep_entries(entries@) =~= spec_entries_set(ev, kv, vv));
    }
}

/// The string a document holds, if it is a string.
pub open spec fn spec_as_str(j: JsonSpec) -> Option<Seq<u8>> {
    match j {
        JsonSpec::Str(s) => Some(s),
        _ => None,
    }
}

pub fn as_str<'a>(v: &'a JsonValue) -> (r: Option<&'a Vec<u8>>)
    ensures
        match r {
            Some(s) => spec_as_str(deep_of(*v)) == Some(s@),
            None => spec_as_str(deep_of(*v)) is None,
        },
{
    match v {
        JsonValue::Str(s) => Some(s),
        _ => None,
    }
}

/// The boolean a document holds, if it is a boolean.
pub open spec fn spec_as_bool(j: JsonSpec) -> Option<bool> {
    match j {
        JsonSpec::Bool(b) => Some(b),
        _ => None,
    }
}

pub fn as_bool(v: &JsonValue) -> (r: Option<bool>)
    ensures
        r == spec_as_bool(deep_of(*v)),
{
    match v {
        JsonValue::Bool(b) => Some(*b),
        _ => None,
    }
}

/// First value for `key` among a member list.
#[verifier::loop_isolation(false)]
pub fn entries_get<'a>(entries: &'a Vec<JsonEntry>, key: &[u8]) -> (r: Option<&'a JsonValue>)
    ensures
        match r {
            Some(m) => spec_entries_get(deep_entries(entries@), key@, 0) == Some(deep_of(*m)),
            None => spec_entries_get(deep_entries(entries@), key@, 0) is None,
        },
{
    broadcast use {lemma_deep_list_index, lemma_deep_entries_index};

    let ghost ev = deep_entries(entries@);
    let mut i: usize = 0;
    while i < entries.len()
        invariant
            0 <= i <= entries@.len(),
            spec_entries_get(ev, key@, 0) == spec_entries_get(ev, key@, i as int),
        decreases entries@.len() - i,
    {
        if crate::text::eq_bytes(entries[i].key.as_slice(), key) {
            return Some(&entries[i].value);
        }
        i = i + 1;
    }
    None
}

/// A structural copy of a member list.
#[verifier::loop_isolation(false)]
pub fn clone_entries(entries: &Vec<JsonEntry>) -> (r: Vec<JsonEntry>)
    ensures
        deep_entries(r@) == deep_entries(entries@),
    decreases entries@,
{
    broadcast use {lemma_deep_list_index, lemma_deep_entries_index};

    let mut out: Vec<JsonEntry> = Vec::new();
    let mut i: usize = 0;
    while i < entries.len()
        invariant
            0 <= i <= entries@.len(),
            deep_entries(out@) == deep_entries(entries@).subrange(0, i as int),
        decreases entries@.len() - i,
    {
        let e = &entries[i];
        let mut kc: Vec<u8> = Vec::new();
        crate::text::push_bytes(&mut kc, e.key.as_slice());
        proof {
            assert(kc@ =~= e.key@);
        }
        let vc = clone_json(&e.value);
        out.push(JsonEntry { key: kc, value: vc });
        proof {
            assert(deep_entries(out@) =~= deep_entries(entries@).subrange(0, i + 1));
        }
        i = i + 1;
    }
    proof {
        assert(deep_entries(entries@).subrange(0, entries@.len() as int) =~= deep_entries(
            entries@,
        ));
    }
    out
}

/// A structural copy of a document tree.
#[verifier::loop_isolation(false)]
pub fn clone_json(v: &JsonValue) -> (r: JsonValue)
    ensures
        deep_of(r) == deep_of(*v),
    decreases *v,
{
    broadcast use {lemma_deep_list_index, lemma_deep_entries_index};

    match v {
        JsonValue::Null => JsonValue::Null,
        JsonValue::Bool(b) => JsonValue::Bool(*b),
        JsonValue::Num(s) => {
            let mut c: Vec<u8> = Vec::new();
            crate::text::push_bytes(&mut c, s.as_slice());
            proof {
                assert(c@ =~= s@);
            }
            JsonValue::Num(c)
        },
        JsonValue::Str(s) => {
            let mut c: Vec<u8> = Vec::new();
            crate::text::push_bytes(&mut c, s.as_slice());
            proof {
                assert(c@ =~= s@);
            }
            JsonValue::Str(c)
        },
        JsonValue::Arr(items) => {
            let mut out: Vec<JsonValue> = Vec::new();
            let mut i: usize = 0;
            proof {
                lemma_deep_list_index(items@);
            }
            while i < items.len()
                invariant
                    0 <= i <= items@.len(),
                    deep_list(items@).len() == items@.len(),
                    forall|k: int|
                        0 <= k < items@.len() ==> deep_list(items@)[k] == deep_of(items@[k]),
                    deep_list(out@) == deep_list(items@).subrange(0, i as int),
                decreases items@.len() - i,
            {
                let c = clone_json(&items[i]);
                out.push(c);
                proof {
                    lemma_deep_list_index(out@);
                    assert(deep_list(out@) =~= deep_list(items@).subrange(0, i + 1));
                }
                i = i + 1;
            }
            proof {
                assert(deep_list(items@).subrange(0, items@.len() as int) =~= deep_list(items@));
            }
            JsonValue::Arr(out)
        },
        JsonValue::Obj(entries) => {
            let mut out: Vec<JsonEntry> = Vec::new();
            let mut i: usize = 0;
            proof {
                lemma_deep_entries_index(entries@);
            }
            while i < entries.len()
                invariant
                    0 <= i <= entries@.len(),
                    deep_entries(entries@).len() == entries@.len(),
                    forall|k: int|
                        0 <= k < entries@.len() ==> deep_entries(entries@)[k] == (
                        entries@[k].key@,
                        deep_of(entries@[k].value),
                        ),
                    deep_entries(out@) == deep_entries(entries@).subrange(0, i as int),
                decreases entries@.len() - i,
            {
                let e = &entries[i];
                let mut kc: Vec<u8> = Vec::new();
                crate::text::push_bytes(&mut kc, e.key.as_slice());
                proof {
                    assert(kc@ =~= e.key@);
                }
                let vc = clone_json(&e.value);
                out.push(JsonEntry { key: kc, value: vc });
                proof {
                    lemma_deep_entries_index(out@);
                    assert(deep_entries(out@) =~= deep_entries(entries@).subrange(0, i + 1));
                }
                i = i + 1;
            }
            proof {
                assert(deep_entries(entries@).subrange(0, entries@.len() as int) =~= deep_entries(
                    entries@,
                ));
            }
            JsonValue::Obj(out)
        },
    }
}

/// The serialized bytes of a document: compact form, members and items in
/// order, string and number lexemes verbatim.
pub open spec fn spec_ser(j: JsonSpec) -> Seq<u8>
    decreases j, 1int, 0int,
{
    match j {
        JsonSpec::Null => seq![110u8, 117u8, 108u8, 108u8],
        JsonSpec::Bool(b) => if b {
            seq![116u8, 114u8, 117u8, 101u8]
        } else {
            seq![102u8, 97u8, 108u8, 115u8, 101u8]
        },
        JsonSpec::Num(s) => s,
        JsonSpec::Str(s) => seq![34u8] + s + seq![34u8],
        JsonSpec::Arr(items) => seq![91u8] + spec_ser_items(items, 0) + seq![93u8],
        JsonSpec::Obj(entries) => seq![123u8] + spec_ser_entries(entries, 0) + seq![125u8],
    }
}

/// The serialized items from position `i` on, comma separated.
pub open spec fn spec_ser_items(items: Seq<JsonSpec>, i: int) -> Seq<u8>
    decreases items, 0int, items.len() - i,
{
    if i < 0 || i >= items.len() {
        Seq::empty()
    } else if i == items.len() - 1 {
        spec_ser(items[i])
    } else {
        spec_ser(items[i]) + seq![44u8] + spec_ser_items(items, i + 1)
    }
}

/// The serialized members from position `i` on, comma separated.
pub open spec fn spec_ser_entries(entries: Seq<(Seq<u8>, JsonSpec)>, i: int) -> Seq<u8>
    decreases entries, 0int, entries.len() - i,
{
    if i < 0 || i >= entries.len() {
        Seq::empty()
    } else {
        let one = seq![34u8] + entries[i].0 + seq![34u8, 58u8] + spec_ser(entries[i].1);
        if i == entries.len() - 1 {
            one
        } else {
            one + seq![44u8] + spec_ser_entries(entries, i + 1)
        }
    }
}

/// Append the serialized form of a document.
pub fn write_json(v: &JsonValue, out: &mut Vec<u8>)
    ensures
        final(out)@ == old(out)@ + spec_ser(deep_of(*v)),
    decreases *v,
{
    broadcast use {lemma_deep_list_index, lemma_deep_entries_index};

    match v {
        JsonValue::Null => {
            let lit: [u8; 4] = [110, 117, 108, 108];
            crate::text::push_bytes(out, lit.as_slice());
            proof {
                assert(lit@ =~= seq![110u8, 117u8, 108u8, 108u8]);
            }
        },
        JsonValue::Bool(b) => {
            if *b {
                let lit: [u8; 4] = [116, 114, 117, 101];
                crate::text::push_bytes(out, lit.as_slice());
                proof {
                    assert(lit@ =~= seq![116u8, 114u8, 117u8, 101u8]);
                }
            } else {
                let lit: [u8; 5] = [102, 97, 108, 115, 101];
                crate::text::push_bytes(out, lit.as_slice());
                proof {
                    assert(lit@ =~= seq![102u8, 97u8, 108u8, 115u8, 101u8]);
                }
            }
        },
        JsonValue::Num(s) => {
            crate::text::push_bytes(out, s.as_slice());
        },
        JsonValue::Str(s) => {
            out.push(34);
            crate::text::push_bytes(out, s.as_slice());
            out.push(34);
            proof {
                assert(out@ =~= old(out)@ + (seq![34u8] + s@ + seq![34u8]));
            }
        },
        JsonValue::Arr(items) => {
            out.push(91);
            proof {
                lemma_deep_list_index(items@);
            }
            write_items(items, 0, out);
            out.push(93);
            proof {
                assert(out@ =~= old(out)@ + (seq![91u8] + spec_ser_items(deep_list(items@), 0)
                    + seq![93u8]));
            }
        },
        JsonValue::Obj(entries) => {
            out.push(123);
            proof {
                lemma_deep_entries_index(entries@);
            }
            write_entries(entries, 0, out);
            out.push(125);
            proof {
                assert(out@ =~= old(out)@ + (seq![123u8] + spec_ser_entries(
                    deep_entries(entries@),
                    0,
                ) + seq![125u8]));
            }
        },
    }
}

fn write_items(items: &Vec<JsonValue>, idx: usize, out: &mut Vec<u8>)
    requires
        idx <= items@.len(),
    ensures
        final(out)@ == old(out)@ + spec_ser_items(deep_list(items@), idx as int),
    decreases items@, 0int, items@.len() - idx,
{
    broadcast use {lemma_deep_list_index, lemma_deep_entries_index};

    if idx >= items.len() {
        proof {
            assert(out@ =~= old(out)@ + spec_ser_items(deep_list(items@), idx as int));
        }
        return ;
    }
    write_json(&items[idx], out);
    if idx + 1 < items.len() {
        out.push(44);
        write_items(items, idx + 1, out);
        proof {
            assert(out@ =~= old(out)@ + spec_ser_items(deep_list(items@), idx as int));
        }
    } else {
        proof {
            assert(out@ =~= old(out)@ + spec_ser_items(deep_list(items@), idx as int));
        }
    }
}

fn write_entries(entries: &Vec<JsonEntry>, idx: usize, out: &mut Vec<u8>)
    requires
        idx <= entries@.len(),
    ensures
        final(out)@ == old(out)@ + spec_ser_entries(deep_entries(entries@), idx as int),
    decreases entries@, 0int, entries@.len() - idx,
{
    broadcast use {lemma_deep_list_index, lemma_deep_entries_index};

    if idx >= entries.len() {
        proof {
            assert(out@ =~= old(out)@ + spec_ser_entries(deep_entries(entries@), idx as int));
        }
        return ;
    }
    out.push(34);
    crate::text::push_bytes(out, entries[idx].key.as_slice());
    out.push(34);
    out.push(58);
    write_json(&entries[idx].value, out);
    if idx + 1 < entries.len() {
        out.push(44);
        write_entries(entries, idx + 1, out);
        proof {
            assert(out@ =~= old(out)@ + spec_ser_entries(deep_entries(entries@), idx as int));
        }
    } else {
        proof {
            assert(out@ =~= old(out)@ + spec_ser_entries(deep_entries(entries@), idx as int));
        }
    }
}

/// Serialize a document to bytes: compact, deterministic, order preserving.
pub fn serialize_json(v: &JsonValue) -> (r: Vec<u8>)
    ensures
        r@ == spec_ser(deep_of(*v)),
{
    let mut out: Vec<u8> = Vec::new();
    write_json(v, &mut out);
    proof {
        assert(Seq::<u8>::empty() + spec_ser(deep_of(*v)) =~= spec_ser(deep_of(*v)));
    }
    out
}

} // verus!
