//! A small JSON value model. Parsing is delegated to serde_json behind a
//! trusted wrapper; every value reaching the verified logic is a `Json`.

use vstd::prelude::*;
use vstd::string::*;
use crate::text::str_eq;

verus! {

/// A parsed JSON document. Numbers keep the decimal text serde_json renders
/// for them; objects keep their entries in the parser's iteration order.
#[derive(Debug, PartialEq)]
pub enum Json {
    Null,
    Bool(bool),
    Num(String),
    Str(String),
    Arr(Vec<Json>),
    Obj(Vec<(String, Json)>),
}

/// First entry of `fields` whose key reads `key`, if any.
pub open spec fn obj_lookup(fields: Seq<(String, Json)>, key: Seq<char>) -> Option<Json>
    decreases fields.len(),
{
    if fields.len() == 0 {
        None
    } else if fields[0].0@ == key {
        Some(fields[0].1)
    } else {
        obj_lookup(fields.drop_first(), key)
    }
}

/// Member lookup: `Some` only on objects that carry the key.
pub open spec fn jget(j: Json, key: Seq<char>) -> Option<Json> {
    match j {
        Json::Obj(fields) => obj_lookup(fields@, key),
        _ => None,
    }
}

/// The string payload of a `Json::Str`, if that is what `j` is.
pub open spec fn jstr(j: Option<Json>) -> Option<String> {
    match j {
        Some(Json::Str(s)) => Some(s),
        _ => None,
    }
}

proof fn lemma_obj_lookup_step(fields: Seq<(String, Json)>, key: Seq<char>, i: int)
    requires
        0 <= i < fields.len(),
        forall|j: int| 0 <= j < i ==> fields[j].0@ != key,
    ensures
        obj_lookup(fields, key) == obj_lookup(fields.skip(i), key),
    decreases i,
{
    if i > 0 {
        lemma_obj_lookup_step(fields, key, i - 1);
        assert(fields.skip(i - 1).drop_first() =~= fields.skip(i));
        assert(fields.skip(i - 1)[0] == fields[i - 1]);
    } else {
        assert(fields.skip(0) =~= fields);
    }
}

impl Json {
    /// Object member lookup, as the stream decoder reads provider payloads.
    #[verifier::loop_isolation(false)]
    pub fn get<'a>(&'a self, key: &str) -> (r: Option<&'a Json>)
        ensures
            match r {
                Some(v) => jget(*self, key@) == Some(*v),
                None => jget(*self, key@) is None,
            },
    {
        match self {
            Json::Obj(fields) => {
                let n = fields.len();
                let mut i: usize = 0;
                while i < n
                    invariant
                        n == fields@.len(),
                        i <= n,
                        forall|j: int| 0 <= j < i ==> fields@[j].0@ != key@,
                    decreases n - i,
                {
                    if str_eq(fields[i].0.as_str(), key) {
                        proof {
                            lemma_obj_lookup_step(fields@, key@, i as int);
                            assert(fields@.skip(i as int)[0] == fields@[i as int]);
                            assert(obj_lookup(fields@.skip(i as int), key@)
                                == Some(fields@[i as int].1));
                        }
                        return Some(&fields[i].1);
                    }
                    i += 1;
                }
                proof {
                    if n > 0 {
                        lemma_obj_lookup_step(fields@, key@, n as int - 1);
                        let tail = fields@.skip(n as int - 1);
                        assert(tail[0] == fields@[n as int - 1]);
                        assert(tail.drop_first().len() == 0);
                        assert(obj_lookup(tail.drop_first(), key@) is None);
                        assert(obj_lookup(tail, key@) is None);
                    }
                    assert(jget(*self, key@) is None);
                }
                None
            },
            _ => None,
        }
    }
}

/// What serde_json makes of a text, rendered into this crate's model:
/// `None` where the text is not a JSON document. Parsing is deterministic,
/// so the result is a function of the characters alone.
pub uninterp spec fn json_of(s: Seq<char>) -> Option<Json>;

#[verifier::external_type_specification]
#[verifier::external_body]
pub struct ExSerdeValue(serde_json::Value);

/// Relies on serde_json::from_str for deciding whether a text is a JSON
/// document and for its parse; the parse is then rendered into `Json`
/// variant by variant.
#[verifier::external_body]
pub fn parse_json(s: &str) -> (r: Option<Json>)
    ensures
        r == json_of(s@),
{
    serde_json::from_str::<serde_json::Value>(s).ok().map(json_from_value)
}

/// Relies on serde_json::Value only for telling its variants apart;
/// each arm moves the variant's payload into the matching `Json` variant.
#[verifier::external_body]
fn json_from_value(v: serde_json::Value) -> Json {
    match v {
        serde_json::Value::Null => Json::Null,
        serde_json::Value::Bool(b) => Json::Bool(b),
        serde_json::Value::Number(n) => Json::Num(n.to_string()),
        serde_json::Value::String(s) => Json::Str(s),
        serde_json::Value::Array(a) => Json::Arr(a.into_iter().map(json_from_value).collect()),
        serde_json::Value::Object(m) => Json::Obj(
            m.into_iter().map(|(k, x)| (k, json_from_value(x))).collect(),
        ),
    }
}

} // verus!
