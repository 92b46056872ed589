//! The case document: an arbitrary JSON value, and the extraction of asset
//! reference markers (`asset://<hash>`) from its string leaves.
//!
//! Numbers are carried as their literal text and never interpreted: the
//! services store and return the document, they do not compute with it.

use vstd::prelude::*;
use vstd::string::{StrSliceExecFns, StringExecFns};
use crate::strings::{spec_has_prefix, str_has_prefix};

verus! {

/// A JSON document of arbitrary shape.
#[derive(Debug, PartialEq, Eq)]
pub enum JsonValue {
    Null,
    Bool(bool),
    /// The literal text of a number, kept verbatim.
    Number(String),
    Str(String),
    Arr(Vec<JsonValue>),
    /// Members in their given order.
    Obj(Vec<(String, JsonValue)>),
}

/// The mathematical shape of a document: every string replaced by its
/// character sequence, every vector by a sequence.
pub enum SpecJson {
    Null,
    Bool(bool),
    Number(Seq<char>),
    Str(Seq<char>),
    Arr(Seq<SpecJson>),
    Obj(Seq<(Seq<char>, SpecJson)>),
}

/// The model of a document.
pub open spec fn json_model(v: JsonValue) -> SpecJson
    decreases v,
{
    match v {
        JsonValue::Null => SpecJson::Null,
        JsonValue::Bool(b) => SpecJson::Bool(b),
        JsonValue::Number(s) => SpecJson::Number(s@),
        JsonValue::Str(s) => SpecJson::Str(s@),
        JsonValue::Arr(vs) => SpecJson::Arr(json_model_list(vs@)),
        JsonValue::Obj(ms) => SpecJson::Obj(json_model_members(ms@)),
    }
}

pub open spec fn json_model_list(vs: Seq<JsonValue>) -> Seq<SpecJson>
    decreases vs,
{
    if vs.len() == 0 {
        Seq::empty()
    } else {
        seq![json_model(vs.first())] + json_model_list(vs.drop_first())
    }
}

pub open spec fn json_model_members(ms: Seq<(String, JsonValue)>) -> Seq<(Seq<char>, SpecJson)>
    decreases ms,
{
    if ms.len() == 0 {
        Seq::empty()
    } else {
        seq![(ms.first().0@, json_model(ms.first().1))] + json_model_members(ms.drop_first())
    }
}

/// The reference marker that tags a fingerprint inside a document.
pub open spec fn spec_marker() -> Seq<char> {
    "asset://"@
}

/// Whether a string leaf is a reference marker.
pub open spec fn spec_is_marker(s: Seq<char>) -> bool {
    spec_has_prefix(s, spec_marker())
}

/// The fingerprints referenced by a document: depth-first, array elements in
/// order, object members in their given order, duplicates kept.
pub open spec fn extract_refs(v: JsonValue) -> Seq<Seq<char>>
    decreases v,
{
    match v {
        JsonValue::Str(s) => if spec_is_marker(s@) {
            seq![s@.skip(spec_marker().len() as int)]
        } else {
            Seq::empty()
        },
        JsonValue::Arr(vs) => extract_refs_list(vs@),
        JsonValue::Obj(ms) => extract_refs_members(ms@),
        _ => Seq::empty(),
    }
}

pub open spec fn extract_refs_list(vs: Seq<JsonValue>) -> Seq<Seq<char>>
    decreases vs,
{
    if vs.len() == 0 {
        Seq::empty()
    } else {
        extract_refs(vs.first()) + extract_refs_list(vs.drop_first())
    }
}

pub open spec fn extract_refs_members(ms: Seq<(String, JsonValue)>) -> Seq<Seq<char>>
    decreases ms,
{
    if ms.len() == 0 {
        Seq::empty()
    } else {
        extract_refs(ms.first().1) + extract_refs_members(ms.drop_first())
    }
}

/// Scans a document for reference markers and returns the fingerprints they
/// carry, in traversal order, duplicates kept.
pub fn extract_existing_hashes(value: &JsonValue) -> (r: Vec<String>)
    ensures
        r.deep_view() == extract_refs(*value),
{
    let mut out: Vec<String> = Vec::new();
    extract_into(value, &mut out);
    proof {
        assert(out.deep_view() =~= extract_refs(*value));
    }
    out
}

fn extract_into(value: &JsonValue, out: &mut Vec<String>)
    ensures
        final(out).deep_view() == old(out).deep_view() + extract_refs(*value),
    decreases *value, 0int,
{
    match value {
        JsonValue::Str(s) => {
            proof {
                reveal_strlit("asset://");
            }
            if str_has_prefix(s.as_str(), "asset://") {
                let n = s.as_str().unicode_len();
                let h = s.as_str().substring_char(8, n);
                out.push(String::from_str(h));
                proof {
                    assert(h@ =~= s@.skip(spec_marker().len() as int));
                    assert(out.deep_view() =~= old(out).deep_view() + extract_refs(*value));
                }
            } else {
                proof {
                    assert(out.deep_view() =~= old(out).deep_view() + extract_refs(*value));
                }
            }
        },
        JsonValue::Arr(vs) => {
            extract_list_into(vs, 0, out);
            proof {
                assert(vs@.skip(0) =~= vs@);
            }
        },
        JsonValue::Obj(ms) => {
            extract_members_into(ms, 0, out);
            proof {
                assert(ms@.skip(0) =~= ms@);
            }
        },
        _ => {
            proof {
                assert(out.deep_view() =~= old(out).deep_view() + extract_refs(*value));
            }
        },
    }
}

fn extract_list_into(vs: &Vec<JsonValue>, i: usize, out: &mut Vec<String>)
    requires
        i <= vs@.len(),
    ensures
        final(out).deep_view() == old(out).deep_view() + extract_refs_list(vs@.skip(i as int)),
    decreases *vs, vs@.len() - i, 1int,
{
    if i == vs.len() {
        proof {
            assert(vs@.skip(i as int) =~= Seq::<JsonValue>::empty());
            assert(out.deep_view() =~= old(out).deep_view() + extract_refs_list(
                vs@.skip(i as int),
            ));
        }
    } else {
        extract_into(&vs[i], out);
        extract_list_into(vs, i + 1, out);
        proof {
            assert(vs@.skip(i as int).drop_first() =~= vs@.skip(i + 1));
            assert(vs@.skip(i as int).first() == vs@[i as int]);
        }
    }
}

fn extract_members_into(ms: &Vec<(String, JsonValue)>, i: usize, out: &mut Vec<String>)
    requires
        i <= ms@.len(),
    ensures
        final(out).deep_view() == old(out).deep_view() + extract_refs_members(ms@.skip(i as int)),
    decreases *ms, ms@.len() - i, 1int,
{
    if i == ms.len() {
        proof {
            assert(ms@.skip(i as int) =~= Seq::<(String, JsonValue)>::empty());
            assert(out.deep_view() =~= old(out).deep_view() + extract_refs_members(
                ms@.skip(i as int),
            ));
        }
    } else {
        extract_into(&ms[i].1, out);
        extract_members_into(ms, i + 1, out);
        proof {
            assert(ms@.skip(i as int).drop_first() =~= ms@.skip(i + 1));
            assert(ms@.skip(i as int).first() == ms@[i as int]);
        }
    }
}

/// A deep copy whose model is that of the original.
pub fn clone_value(v: &JsonValue) -> (r: JsonValue)
    ensures
        json_model(r) == json_model(*v),
    decreases *v, 0int,
{
    match v {
        JsonValue::Null => JsonValue::Null,
        JsonValue::Bool(b) => JsonValue::Bool(*b),
        JsonValue::Number(s) => JsonValue::Number(s.clone()),
        JsonValue::Str(s) => JsonValue::Str(s.clone()),
        JsonValue::Arr(vs) => {
            let r = clone_list(vs);
            proof {
                lemma_json_model_list_congruence(r@, vs@);
            }
            JsonValue::Arr(r)
        },
        JsonValue::Obj(ms) => {
            let r = clone_members(ms);
            proof {
                lemma_json_model_members_congruence(r@, ms@);
            }
            JsonValue::Obj(r)
        },
    }
}

fn clone_list(vs: &Vec<JsonValue>) -> (r: Vec<JsonValue>)
    ensures
        r@.len() == vs@.len(),
        forall|k: int| 0 <= k < vs@.len() ==> json_model(r@[k]) == json_model(vs@[k]),
    decreases *vs, 0int, 1int,
{
    let mut r: Vec<JsonValue> = Vec::new();
    let mut i: usize = 0;
    while i < vs.len()
        invariant
            i <= vs@.len(),
            r@.len() == i,
            forall|k: int| 0 <= k < i ==> json_model(r@[k]) == json_model(vs@[k]),
        decreases vs@.len() - i,
    {
        r.push(clone_value(&vs[i]));
        i = i + 1;
    }
    r
}

fn clone_members(ms: &Vec<(String, JsonValue)>) -> (r: Vec<(String, JsonValue)>)
    ensures
        r@.len() == ms@.len(),
        forall|k: int| 0 <= k < ms@.len() ==> r@[k].0 == ms@[k].0 && json_model(r@[k].1)
            == json_model(ms@[k].1),
    decreases *ms, 0int, 1int,
{
    let mut r: Vec<(String, JsonValue)> = Vec::new();
    let mut i: usize = 0;
    while i < ms.len()
        invariant
            i <= ms@.len(),
            r@.len() == i,
            forall|k: int| 0 <= k < i ==> r@[k].0 == ms@[k].0 && json_model(r@[k].1)
                == json_model(ms@[k].1),
        decreases ms@.len() - i,
    {
        let key = ms[i].0.clone();
        let val = clone_value(&ms[i].1);
        r.push((key, val));
        i = i + 1;
    }
    r
}

proof fn lemma_json_model_list_congruence(a: Seq<JsonValue>, b: Seq<JsonValue>)
    requires
        a.len() == b.len(),
        forall|k: int| 0 <= k < a.len() ==> json_model(a[k]) == json_model(b[k]),
    ensures
        json_model_list(a) == json_model_list(b),
    decreases a.len(),
{
    if a.len() > 0 {
        lemma_json_model_list_congruence(a.drop_first(), b.drop_first());
    }
}

proof fn lemma_json_model_members_congruence(
    a: Seq<(String, JsonValue)>,
    b: Seq<(String, JsonValue)>,
)
    requires
        a.len() == b.len(),
        forall|k: int| 0 <= k < a.len() ==> a[k].0 == b[k].0 && json_model(a[k].1) == json_model(
            b[k].1,
        ),
    ensures
        json_model_members(a) == json_model_members(b),
    decreases a.len(),
{
    if a.len() > 0 {
        lemma_json_model_members_congruence(a.drop_first(), b.drop_first());
    }
}

} // verus!
