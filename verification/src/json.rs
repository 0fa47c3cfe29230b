//! A JSON document as the web services' answers are read: the values the
//! response parsers look at, and how they look them up.

use vstd::prelude::*;

use serde_json::Value;

use crate::text::{chars_eq, chars_of};

verus! {

/// A parsed JSON value. Numbers keep what the parsers read of them:
/// integers exactly, other numbers only as being numbers.
#[derive(Debug)]
pub enum Json {
    Null,
    Bool(bool),
    /// A non-negative integer.
    PosInt(u64),
    /// A negative integer.
    NegInt(i64),
    /// A number with a fraction or an exponent.
    Float,
    Str(String),
    Array(Vec<Json>),
    /// Members as the parser hands them out (for `serde_json` without
    /// `preserve_order`: sorted by name, one member per name).
    Object(Vec<(String, Json)>),
}

/// What `serde_json::from_str::<serde_json::Value>` gives for `body`, in
/// the library's form: the document, or the parser's error message.
pub uninterp spec fn json_text(body: Seq<char>) -> Result<Json, Seq<char>>;

/// A parsed JSON document of `serde_json`.
#[verifier::external_type_specification]
#[verifier::external_body]
pub struct ExJsonValue(serde_json::Value);

/// A `serde_json::Value` in the library's form, variant for variant
/// (numbers as `Value::as_u64`, else `as_i64`, else a float).
#[verifier::external_body]
fn json_of(v: Value) -> Json {
    match v {
        Value::Null => Json::Null,
        Value::Bool(b) => Json::Bool(b),
        Value::Number(n) => match (n.as_u64(), n.as_i64()) {
            (Some(u), _) => Json::PosInt(u),
            (None, Some(i)) => Json::NegInt(i),
            _ => Json::Float,
        },
        Value::String(s) => Json::Str(s),
        Value::Array(a) => Json::Array(a.into_iter().map(json_of).collect()),
        Value::Object(m) => Json::Object(m.into_iter().map(|(k, v)| (k, json_of(v))).collect()),
    }
}

/// Parses a response body with `serde_json::from_str` into a
/// `serde_json::Value` and hands it out in the library's form; the result
/// is `json_text` of the body (`Err` holding the parser's message).
#[verifier::external_body]
pub(crate) fn parse_json(body: &str) -> (r: Result<Json, String>)
    ensures
        match json_text(body@) {
            Ok(j) => r == Ok::<Json, String>(j),
            Err(m) => r is Err && r->Err_0@ == m,
        },
{
    serde_json::from_str::<Value>(body).map(json_of).map_err(|e| e.to_string())
}

/// Position of the first member named `key`.
pub open spec fn field_index(fields: Seq<(String, Json)>, key: Seq<char>) -> Option<int>
    decreases fields.len(),
{
    if fields.len() == 0 {
        None
    } else {
        match field_index(fields.drop_last(), key) {
            Some(i) => Some(i),
            None => if fields.last().0@ == key {
                Some(fields.len() - 1)
            } else {
                None
            },
        }
    }
}

/// The first member of an object named `key` (`Value::get` with a string
/// index); `None` for a missing member or a non-object.
pub open spec fn json_field(j: Json, key: Seq<char>) -> Option<Json> {
    match j {
        Json::Object(fields) => match field_index(fields@, key) {
            Some(i) => Some(fields@[i].1),
            None => None,
        },
        _ => None,
    }
}

/// `Value::as_str`.
pub open spec fn json_str(j: Option<Json>) -> Option<Seq<char>> {
    match j {
        Some(Json::Str(s)) => Some(s@),
        _ => None,
    }
}

/// `Value::as_u64`.
pub open spec fn json_u64(j: Option<Json>) -> Option<u64> {
    match j {
        Some(Json::PosInt(n)) => Some(n),
        _ => None,
    }
}

/// `Value::as_i64`.
pub open spec fn json_i64(j: Option<Json>) -> Option<int> {
    match j {
        Some(Json::PosInt(n)) => if n <= i64::MAX {
            Some(n as int)
        } else {
            None
        },
        Some(Json::NegInt(n)) => Some(n as int),
        _ => None,
    }
}

/// `Value::as_array`.
pub open spec fn json_array(j: Option<Json>) -> Option<Seq<Json>> {
    match j {
        Some(Json::Array(v)) => Some(v@),
        _ => None,
    }
}

proof fn lemma_field_index_prefix(fields: Seq<(String, Json)>, key: Seq<char>, n: int)
    requires
        0 <= n <= fields.len(),
        field_index(fields.subrange(0, n), key) is Some,
    ensures
        field_index(fields, key) == field_index(fields.subrange(0, n), key),
    decreases fields.len() - n,
{
    if n < fields.len() {
        let pre = fields.subrange(0, n + 1);
        assert(pre.drop_last() =~= fields.subrange(0, n));
        lemma_field_index_prefix(fields, key, n + 1);
    } else {
        assert(fields.subrange(0, n) =~= fields);
    }
}

/// The member named `key` (see `json_field`).
pub fn get_field<'a>(j: &'a Json, key: &str) -> (r: Option<&'a Json>)
    ensures
        match r {
            Some(v) => json_field(*j, key@) == Some(*v),
            None => json_field(*j, key@) is None,
        },
{
    match j {
        Json::Object(fields) => {
            let k = chars_of(key);
            let mut i: usize = 0;
            while i < fields.len()
                invariant
                    i <= fields@.len(),
                    k@ == key@,
                    *j == Json::Object(*fields),
                    field_index(fields@.subrange(0, i as int), key@) is None,
                decreases fields.len() - i,
            {
                let name = chars_of(fields[i].0.as_str());
                proof {
                    let pre = fields@.subrange(0, i as int + 1);
                    assert(pre.drop_last() =~= fields@.subrange(0, i as int));
                    assert(pre.last() == fields@[i as int]);
                }
                if chars_eq(&name, &k) {
                    proof {
                        lemma_field_index_prefix(fields@, key@, i as int + 1);
                    }
                    return Some(&fields[i].1);
                }
                i = i + 1;
            }
            proof {
                assert(fields@.subrange(0, fields@.len() as int) =~= fields@);
            }
            None
        },
        _ => None,
    }
}

/// `Value::as_str` on a looked-up member.
pub fn as_str(j: Option<&Json>) -> (r: Option<&str>)
    ensures
        match r {
            Some(s) => json_str(
                match j {
                    Some(v) => Some(*v),
                    None => None,
                },
            ) == Some(s@),
            None => json_str(
                match j {
                    Some(v) => Some(*v),
                    None => None,
                },
            ) is None,
        },
{
    match j {
        Some(Json::Str(s)) => Some(s.as_str()),
        _ => None,
    }
}

/// `Value::as_u64` on a looked-up member.
pub fn as_u64(j: Option<&Json>) -> (r: Option<u64>)
    ensures
        r == json_u64(
            match j {
                Some(v) => Some(*v),
                None => None,
            },
        ),
{
    match j {
        Some(Json::PosInt(n)) => Some(*n),
        _ => None,
    }
}

/// `Value::as_i64` on a looked-up member.
pub fn as_i64(j: Option<&Json>) -> (r: Option<i64>)
    ensures
        match r {
            Some(n) => json_i64(
                match j {
                    Some(v) => Some(*v),
                    None => None,
                },
            ) == Some(n as int),
            None => json_i64(
                match j {
                    Some(v) => Some(*v),
                    None => None,
                },
            ) is None,
        },
{
    match j {
        Some(Json::PosInt(n)) => if *n <= 9223372036854775807u64 {
            Some(*n as i64)
        } else {
            None
        },
        Some(Json::NegInt(n)) => Some(*n),
        _ => None,
    }
}

/// `Value::as_array` on a looked-up member.
pub fn as_array(j: Option<&Json>) -> (r: Option<&Vec<Json>>)
    ensures
        match r {
            Some(v) => json_array(
                match j {
                    Some(x) => Some(*x),
                    None => None,
                },
            ) == Some(v@),
            None => json_array(
                match j {
                    Some(x) => Some(*x),
                    None => None,
                },
            ) is None,
        },
{
    match j {
        Some(Json::Array(v)) => Some(v),
        _ => None,
    }
}

} // verus!
