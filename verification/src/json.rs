//! The library's JSON model: a tree of plain values.
//!
//! Provider payloads are JSON text.  The trusted boundary parses a text
//! into this tree exactly once (see [`crate::jsonio`]); everything that
//! walks the tree — field lookups, the shape rules of the payload — is
//! verified here and in [`crate::ingest`] against spec functions over the
//! same tree, so a decode's contract can say precisely on which texts it
//! succeeds and what it returns.

use vstd::prelude::*;
use crate::util::str_eq;

verus! {

/// A JSON value, as the ingestion logic reads it.  Numbers keep only what
/// the logic consumes — unsigned integers that fit `u64`; any other number
/// (negative, fractional, too large) is carried as `OtherNumber`.  Object
/// entries come in the parser's key order, one entry per key.
pub enum JsonValue {
    Null,
    Bool(bool),
    Num(u64),
    OtherNumber,
    Str(String),
    Arr(Vec<JsonValue>),
    Obj(Vec<(String, JsonValue)>),
}

/// The value under `k` in an object's entry list: the first entry wins
/// (the parser collapses duplicate keys, so there is at most one).
pub open spec fn obj_lookup(entries: Seq<(String, JsonValue)>, k: Seq<char>) -> Option<JsonValue>
    decreases entries.len(),
{
    if entries.len() == 0 {
        None
    } else if entries[0].0@ == k {
        Some(entries[0].1)
    } else {
        obj_lookup(entries.drop_first(), k)
    }
}

/// Field lookup on a JSON value: the field of an object, nothing anywhere
/// else.
pub open spec fn json_field(j: JsonValue, k: Seq<char>) -> Option<JsonValue> {
    match j {
        JsonValue::Obj(entries) => obj_lookup(entries@, k),
        _ => None,
    }
}

/// The strings of a JSON array whose elements are all strings; `None` when
/// any element is something else.
pub open spec fn strings_of(elems: Seq<JsonValue>) -> Option<Seq<Seq<char>>>
    decreases elems.len(),
{
    if elems.len() == 0 {
        Some(Seq::empty())
    } else {
        match (strings_of(elems.drop_last()), elems.last()) {
            (Some(rest), JsonValue::Str(s)) => Some(rest.push(s@)),
            _ => None,
        }
    }
}

/// A failed string list stays failed when the list grows.
pub proof fn lemma_strings_of_extend_none(elems: Seq<JsonValue>, i: int)
    requires
        0 <= i <= elems.len(),
        strings_of(elems.take(i)) is None,
    ensures
        strings_of(elems) is None,
    decreases elems.len() - i,
{
    if i < elems.len() {
        assert(elems.take(i + 1).drop_last() =~= elems.take(i));
        lemma_strings_of_extend_none(elems, i + 1);
    } else {
        assert(elems.take(i) =~= elems);
    }
}

/// Looks a field up on a JSON value.
pub fn json_get<'a>(j: &'a JsonValue, key: &str) -> (r: Option<&'a JsonValue>)
    ensures
        match r {
            Some(v) => json_field(*j, key@) == Some(*v),
            None => json_field(*j, key@) is None,
        },
{
    match j {
        JsonValue::Obj(entries) => {
            proof {
                assert(*j == JsonValue::Obj(*entries));
                assert(json_field(*j, key@) == obj_lookup(entries@, key@));
            }
            let n = entries.len();
            let mut i: usize = 0;
            proof {
                assert(entries@.skip(0) =~= entries@);
            }
            while i < n
                invariant
                    0 <= i <= n,
                    n == entries@.len(),
                    json_field(*j, key@) == obj_lookup(entries@, key@),
                    obj_lookup(entries@, key@) == obj_lookup(entries@.skip(i as int), key@),
                decreases n - i,
            {
                proof {
                    assert(entries@.skip(i as int)[0] == entries@[i as int]);
                }
                if str_eq(entries[i].0.as_str(), key) {
                    proof {
                        assert(obj_lookup(entries@.skip(i as int), key@) == Some(
                            entries@[i as int].1,
                        ));
                        assert(json_field(*j, key@) == obj_lookup(entries@, key@));
                    }
                    return Some(&entries[i].1);
                }
                proof {
                    assert(entries@.skip(i as int).drop_first() =~= entries@.skip(i + 1));
                }
                i += 1;
            }
            proof {
                assert(entries@.skip(n as int) =~= Seq::<(String, JsonValue)>::empty());
            }
            None
        },
        _ => None,
    }
}

/// Reads a JSON array of strings into owned strings; fails exactly when
/// some element is not a string.
pub fn strings_of_array(elems: &Vec<JsonValue>) -> (r: Option<Vec<String>>)
    ensures
        match r {
            Some(ss) => strings_of(elems@) == Some(ss.deep_view()),
            None => strings_of(elems@) is None,
        },
{
    let n = elems.len();
    let mut out: Vec<String> = Vec::new();
    let mut i: usize = 0;
    proof {
        assert(elems@.take(0) =~= Seq::<JsonValue>::empty());
        assert(out.deep_view() =~= Seq::<Seq<char>>::empty());
    }
    while i < n
        invariant
            0 <= i <= n,
            n == elems@.len(),
            strings_of(elems@.take(i as int)) == Some(out.deep_view()),
        decreases n - i,
    {
        proof {
            assert(elems@.take(i + 1).drop_last() =~= elems@.take(i as int));
            assert(elems@.take(i + 1).last() == elems@[i as int]);
        }
        match &elems[i] {
            JsonValue::Str(s) => {
                out.push(s.clone());
                proof {
                    assert(elems@[i as int] == JsonValue::Str(*s));
                    assert(out.deep_view() =~= strings_of(elems@.take(i + 1))->Some_0);
                }
            },
            _ => {
                proof {
                    lemma_strings_of_extend_none(elems@, i + 1);
                }
                return None;
            },
        }
        i += 1;
    }
    proof {
        assert(elems@.take(n as int) =~= elems@);
    }
    Some(out)
}

} // verus!
