//! JSON documents as plain data.

use vstd::prelude::*;

use crate::text::same;

verus! {

/// A JSON document.
#[derive(Debug)]
pub enum Json {
    Null,
    Bool(bool),
    /// A number, where it is an unsigned 64-bit integer.
    Num(Option<u64>),
    Str(String),
    Arr(Vec<Json>),
    Obj(Vec<(String, Json)>),
}

/// The model of a document.
#[verifier::ext_equal]
pub enum JsonV {
    Null,
    Bool(bool),
    Num(Option<u64>),
    Str(Seq<char>),
    Arr(Seq<JsonV>),
    Obj(Seq<(Seq<char>, JsonV)>),
}

pub open spec fn model(j: Json) -> JsonV
    decreases j,
{
    match j {
        Json::Null => JsonV::Null,
        Json::Bool(b) => JsonV::Bool(b),
        Json::Num(n) => JsonV::Num(n),
        Json::Str(s) => JsonV::Str(s@),
        Json::Arr(v) => JsonV::Arr(
            Seq::new(
                v@.len(),
                |i: int|
                    if 0 <= i < v@.len() {
                        model(v@[i])
                    } else {
                        JsonV::Null
                    },
            ),
        ),
        Json::Obj(v) => JsonV::Obj(
            Seq::new(
                v@.len(),
                |i: int|
                    if 0 <= i < v@.len() {
                        (v@[i].0@, model(v@[i].1))
                    } else {
                        (Seq::empty(), JsonV::Null)
                    },
            ),
        ),
    }
}

/// The first member of this name.
pub open spec fn member(fields: Seq<(Seq<char>, JsonV)>, key: Seq<char>) -> Option<JsonV>
    decreases fields.len(),
{
    if fields.len() == 0 {
        None
    } else if fields[0].0 == key {
        Some(fields[0].1)
    } else {
        member(fields.skip(1), key)
    }
}

impl JsonV {
    /// The member of an object; nothing of any other document.
    pub open spec fn get(self, key: Seq<char>) -> Option<JsonV> {
        match self {
            JsonV::Obj(fields) => member(fields, key),
            _ => None,
        }
    }

    pub open spec fn text(self) -> Option<Seq<char>> {
        match self {
            JsonV::Str(s) => Some(s),
            _ => None,
        }
    }

    /// The string member of this name.
    pub open spec fn text_at(self, key: Seq<char>) -> Option<Seq<char>> {
        match self.get(key) {
            Some(v) => v.text(),
            None => None,
        }
    }

    /// The member of a member.
    pub open spec fn get2(self, a: Seq<char>, b: Seq<char>) -> Option<JsonV> {
        match self.get(a) {
            Some(v) => v.get(b),
            None => None,
        }
    }

    pub open spec fn items(self) -> Option<Seq<JsonV>> {
        match self {
            JsonV::Arr(s) => Some(s),
            _ => None,
        }
    }
}

impl Json {
    /// The member of an object.
    pub fn get(&self, key: &str) -> (r: Option<&Json>)
        ensures
            match r {
                Some(j) => model(*self).get(key@) == Some(model(*j)),
                None => model(*self).get(key@) is None,
            },
    {
        match self {
            Json::Obj(v) => {
                let ghost fields = model(*self)->Obj_0;
                let mut i: usize = 0;
                assert(fields.skip(0) =~= fields);
                while i < v.len()
                    invariant
                        i <= v@.len(),
                        *self == Json::Obj(*v),
                        fields == model(*self)->Obj_0,
                        fields.len() == v@.len(),
                        member(fields, key@) == member(fields.skip(i as int), key@),
                    decreases v@.len() - i,
                {
                    assert(fields.skip(i as int)[0] == (v@[i as int].0@, model(v@[i as int].1)));
                    if same(v[i].0.as_str(), key) {
                        return Some(&v[i].1);
                    }
                    assert(fields.skip(i as int).skip(1) =~= fields.skip(i + 1));
                    i += 1;
                }
                None
            },
            _ => None,
        }
    }

    /// The member of a member.
    pub fn get2(&self, a: &str, b: &str) -> (r: Option<&Json>)
        ensures
            match r {
                Some(j) => model(*self).get2(a@, b@) == Some(model(*j)),
                None => model(*self).get2(a@, b@) is None,
            },
    {
        match self.get(a) {
            Some(v) => v.get(b),
            None => None,
        }
    }

    pub fn as_str(&self) -> (r: Option<&String>)
        ensures
            match r {
                Some(s) => model(*self).text() == Some(s@),
                None => model(*self).text() is None,
            },
    {
        match self {
            Json::Str(s) => Some(s),
            _ => None,
        }
    }

    /// The string member of this name.
    pub fn str_at(&self, key: &str) -> (r: Option<&String>)
        ensures
            match r {
                Some(s) => model(*self).text_at(key@) == Some(s@),
                None => model(*self).text_at(key@) is None,
            },
    {
        match self.get(key) {
            Some(v) => v.as_str(),
            None => None,
        }
    }
}

// ---- parsing --------------------------------------------------------------------

/// The document that `serde_json` reads in a text, or its complaint.
pub uninterp spec fn json_read(text: Seq<char>) -> Result<JsonV, Seq<char>>;

/// A document as `serde_json` holds it.
#[verifier::external_type_specification]
#[verifier::external_body]
pub struct ExValue(serde_json::Value);

/// A `serde_json::Value` as a `Json`, variant by variant. Nothing is claimed
/// of it beyond what `parse_json` says of the whole.
#[verifier::external_body]
fn to_json(v: serde_json::Value) -> (r: Json) {
    match v {
        serde_json::Value::Null => Json::Null,
        serde_json::Value::Bool(b) => Json::Bool(b),
        serde_json::Value::Number(n) => Json::Num(n.as_u64()),
        serde_json::Value::String(s) => Json::Str(s),
        serde_json::Value::Array(a) => Json::Arr(a.into_iter().map(to_json).collect()),
        serde_json::Value::Object(m) => Json::Obj(m.into_iter().map(|(k, x)| (k, to_json(x))).collect()),
    }
}

/// `serde_json::from_str`: the document that a text holds, or the parser's
/// message; a function of the text alone.
#[verifier::external_body]
pub(crate) fn parse_json(text: &str) -> (r: Result<Json, String>)
    ensures
        match r {
            Ok(j) => json_read(text@) == Ok::<JsonV, Seq<char>>(model(j)),
            Err(e) => json_read(text@) == Err::<JsonV, Seq<char>>(e@),
        },
{
    match serde_json::from_str::<serde_json::Value>(text) {
        Ok(v) => Ok(to_json(v)),
        Err(e) => Err(e.to_string()),
    }
}

} // verus!
