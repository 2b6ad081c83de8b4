//! Reading JSON documents through `serde_json`.
//!
//! A parsed document is turned into a [`JsonTree`] that keeps what the
//! logic here reads of it: objects with their members, and numbers as the
//! `u64` they hold (if any).  Everything else is [`JsonTree::Other`].

use vstd::prelude::*;
use crate::text::str_eq;

verus! {

/// `serde_json::Value`, carried through opaquely.
#[verifier::external_type_specification]
#[verifier::external_body]
pub struct ExJsonValue(serde_json::Value);

/// A JSON value as the readers here see it.
#[derive(Debug)]
pub enum JsonTree {
    /// A number: `Some(n)` when it is a non-negative integer that fits in a
    /// `u64`, `None` for any other number.
    Number(Option<u64>),
    /// An object: its members as `(key, value)` pairs.
    Object(Vec<(String, JsonTree)>),
    /// `null`, a boolean, a string or an array.
    Other,
}

/// The position of the first member of `m` named `key` (`m.len()` when
/// there is none).
pub open spec fn key_index(m: Seq<(String, JsonTree)>, key: Seq<char>) -> nat
    decreases m.len(),
{
    if m.len() == 0 {
        0
    } else if m[0].0@ == key {
        0
    } else {
        1 + key_index(m.drop_first(), key)
    }
}

/// The member `key` of `t`, when `t` is an object that has one.
pub open spec fn tree_member(t: JsonTree, key: Seq<char>) -> Option<JsonTree> {
    match t {
        JsonTree::Object(m) => if key_index(m@, key) < m@.len() {
            Some(m@[key_index(m@, key) as int].1)
        } else {
            None
        },
        _ => None,
    }
}

/// What `t` holds at `path` (a chain of member names): `None` when some
/// step is missing, `Some(Some(n))` for a `u64` number `n`, and
/// `Some(None)` for any other value.
pub open spec fn tree_u64_at(t: JsonTree, path: Seq<Seq<char>>) -> Option<Option<u64>>
    decreases path.len(),
{
    if path.len() == 0 {
        Some(
            match t {
                JsonTree::Number(n) => n,
                _ => None,
            },
        )
    } else {
        match tree_member(t, path[0]) {
            Some(c) => tree_u64_at(c, path.drop_first()),
            None => None,
        }
    }
}

/// The `u64` at `path`, if there is one there.
pub open spec fn u64_reading(v: Option<Option<u64>>) -> Option<u64> {
    match v {
        Some(Some(n)) => Some(n),
        _ => None,
    }
}

/// Whether `text` is a JSON document that `serde_json` accepts (within its
/// nesting limit).
pub uninterp spec fn json_text_parses(text: Seq<char>) -> bool;

/// What the document `text`, as `serde_json` reads it, holds at `path`
/// (member names from the root): `None` when a step is not an object or
/// lacks the member, `Some(Some(n))` where `Value::as_u64` gives `n`, and
/// `Some(None)` for any other value.
pub uninterp spec fn json_u64_at(text: Seq<char>, path: Seq<Seq<char>>) -> Option<Option<u64>>;

/// The message (`Display`) of the error `serde_json` gives for a text it
/// does not accept.
pub uninterp spec fn json_error_message(text: Seq<char>) -> Seq<char>;

/// `serde_json::from_str::<serde_json::Value>`, with the value turned into a
/// [`JsonTree`] and an error into its message: it succeeds exactly on the
/// texts that `json_text_parses` names, the tree holds at every path what
/// the document holds there, and the message is the one serde_json gives
/// for the text.
#[verifier::external_body]
pub(crate) fn parse_json(text: &str) -> (r: Result<JsonTree, String>)
    ensures
        r is Ok <==> json_text_parses(text@),
        r matches Ok(t) ==> forall|path: Seq<Seq<char>>| #[trigger]
            tree_u64_at(t, path) == json_u64_at(text@, path),
        r matches Err(m) ==> m@ == json_error_message(text@),
{
    match serde_json::from_str::<serde_json::Value>(text) {
        Ok(v) => Ok(json_tree(&v)),
        Err(e) => Err(format!("{}", e)),
    }
}

/// Turns a `serde_json::Value` into a [`JsonTree`], variant by variant:
/// objects member by member (in the map's order), numbers by
/// `Number::as_u64`.
#[verifier::external_body]
fn json_tree(v: &serde_json::Value) -> JsonTree {
    match v {
        serde_json::Value::Null => JsonTree::Other,
        serde_json::Value::Bool(_) => JsonTree::Other,
        serde_json::Value::Number(n) => JsonTree::Number(n.as_u64()),
        serde_json::Value::String(_) => JsonTree::Other,
        serde_json::Value::Array(_) => JsonTree::Other,
        serde_json::Value::Object(m) => {
            let mut members = Vec::new();
            for (k, x) in m {
                members.push((k.clone(), json_tree(x)));
            }
            JsonTree::Object(members)
        },
    }
}

/// [`key_index`] is within bounds, finds `key`, and no earlier member is
/// named `key`.
proof fn lemma_key_index(m: Seq<(String, JsonTree)>, key: Seq<char>)
    ensures
        key_index(m, key) <= m.len(),
        key_index(m, key) < m.len() ==> m[key_index(m, key) as int].0@ == key,
        forall|j: int| 0 <= j < key_index(m, key) ==> m[j].0@ != key,
    decreases m.len(),
{
    if m.len() > 0 && m[0].0@ != key {
        lemma_key_index(m.drop_first(), key);
        assert forall|j: int| 0 <= j < key_index(m, key) implies m[j].0@ != key by {
            if j > 0 {
                assert(m[j] == m.drop_first()[j - 1]);
            }
        }
    }
}

/// The member `key` of `t`, as [`tree_member`] describes.
pub fn member<'a>(t: &'a JsonTree, key: &str) -> (r: Option<&'a JsonTree>)
    ensures
        match r {
            Some(c) => tree_member(*t, key@) == Some(*c),
            None => tree_member(*t, key@) is None,
        },
{
    match t {
        JsonTree::Object(m) => {
            proof {
                lemma_key_index(m@, key@);
            }
            let mut i: usize = 0;
            while i < m.len()
                invariant
                    *t == JsonTree::Object(*m),
                    i <= m@.len(),
                    forall|j: int| 0 <= j < i ==> m@[j].0@ != key@,
                    key_index(m@, key@) <= m@.len(),
                    key_index(m@, key@) < m@.len() ==> m@[key_index(m@, key@) as int].0@ == key@,
                    forall|j: int| 0 <= j < key_index(m@, key@) ==> m@[j].0@ != key@,
                decreases m.len() - i,
            {
                if str_eq(m[i].0.as_str(), key) {
                    assert(key_index(m@, key@) == i);
                    return Some(&m[i].1);
                }
                i = i + 1;
            }
            None
        },
        _ => None,
    }
}

/// The `u64` that `t` holds, if it is such a number.
pub fn as_u64(t: &JsonTree) -> (r: Option<u64>)
    ensures
        r == u64_reading(tree_u64_at(*t, Seq::empty())),
{
    match t {
        JsonTree::Number(n) => *n,
        _ => None,
    }
}

/// The `u64` member `key` of `t`, as `get(key).and_then(as_u64)` reads it.
pub fn u64_member(t: &JsonTree, key: &str) -> (r: Option<u64>)
    ensures
        r == u64_reading(tree_u64_at(*t, seq![key@])),
{
    let r = match member(t, key) {
        Some(c) => as_u64(c),
        None => None,
    };
    proof {
        assert(seq![key@].drop_first() =~= Seq::<Seq<char>>::empty());
    }
    r
}

} // verus!
