//! JSON values as a closed tagged union, and the calls into serde_json that
//! read and write their text.
use crate::json_calls::lookup;
use crate::text::{lemma_first_from_skip, same_chars, to_chars};
use vstd::prelude::*;

verus! {

/// serde_json's number, carried through as it is.
#[verifier::external_type_specification]
#[verifier::external_body]
pub struct ExNumber(serde_json::Number);

/// serde_json's value, met only where a value is read from or written to text.
#[verifier::external_type_specification]
#[verifier::external_body]
pub struct ExSerdeValue(serde_json::Value);

/// Relies on `Clone` of `serde_json::Number`: the copy is the same number.
pub assume_specification[ <serde_json::Number as Clone>::clone ](n: &serde_json::Number) -> (r:
    serde_json::Number)
    ensures
        r == *n,
;

/// A JSON value. An object is a list of members; those of an object read from text
/// come sorted by name, and of a name given twice only the last value is kept.
#[derive(Debug, PartialEq)]
pub enum JsonValue {
    Null,
    Bool(bool),
    Number(serde_json::Number),
    String(String),
    Array(Vec<JsonValue>),
    Object(Vec<(String, JsonValue)>),
}

/// The mathematical value of a `JsonValue`: strings become sequences of characters.
pub enum JsonModel {
    Null,
    Bool(bool),
    Number(serde_json::Number),
    String(Seq<char>),
    Array(Seq<JsonModel>),
    Object(Seq<(Seq<char>, JsonModel)>),
}

impl JsonValue {
    pub open spec fn view(&self) -> JsonModel
        decreases self,
    {
        match self {
            JsonValue::Null => JsonModel::Null,
            JsonValue::Bool(b) => JsonModel::Bool(*b),
            JsonValue::Number(n) => JsonModel::Number(*n),
            JsonValue::String(s) => JsonModel::String(s@),
            JsonValue::Array(items) => JsonModel::Array(
                Seq::new(
                    items.len() as nat,
                    |i: int|
                        if 0 <= i < items.len() {
                            items[i].view()
                        } else {
                            JsonModel::Null
                        },
                ),
            ),
            JsonValue::Object(members) => JsonModel::Object(
                Seq::new(
                    members.len() as nat,
                    |i: int|
                        if 0 <= i < members.len() {
                            (members[i].0@, members[i].1.view())
                        } else {
                            (Seq::empty(), JsonModel::Null)
                        },
                ),
            ),
        }
    }

    /// A copy of the value, equal to it.
    pub fn deep_copy(&self) -> (r: JsonValue)
        ensures
            r@ == self@,
        decreases self,
    {
        match self {
            JsonValue::Null => JsonValue::Null,
            JsonValue::Bool(b) => JsonValue::Bool(*b),
            JsonValue::Number(n) => JsonValue::Number(n.clone()),
            JsonValue::String(s) => JsonValue::String(s.clone()),
            JsonValue::Array(items) => {
                let mut out: Vec<JsonValue> = Vec::new();
                let mut i: usize = 0;
                while i < items.len()
                    invariant
                        i <= items.len(),
                        *self == JsonValue::Array(*items),
                        out.len() == i,
                        forall|j: int| 0 <= j < i ==> out[j]@ == items[j]@,
                    decreases items.len() - i,
                {
                    proof {
                        assert(decreases_to!(*self => (*self)->Array_0));
                        assert(decreases_to!(items => items[i as int]));
                    }
                    out.push(items[i].deep_copy());
                    i += 1;
                }
                let r = JsonValue::Array(out);
                assert(r@ == self@) by {
                    assert(r@->Array_0 =~= self@->Array_0);
                }
                r
            },
            JsonValue::Object(members) => {
                let mut out: Vec<(String, JsonValue)> = Vec::new();
                let mut i: usize = 0;
                while i < members.len()
                    invariant
                        i <= members.len(),
                        *self == JsonValue::Object(*members),
                        out.len() == i,
                        forall|j: int|
                            0 <= j < i ==> out[j].0@ == members[j].0@ && out[j].1@ == members[j].1@,
                    decreases members.len() - i,
                {
                    let key = members[i].0.clone();
                    proof {
                        assert(decreases_to!(*self => (*self)->Object_0));
                        assert(decreases_to!(members => members[i as int]));
                        assert(decreases_to!(members[i as int] => members[i as int].1));
                    }
                    let value = members[i].1.deep_copy();
                    out.push((key, value));
                    i += 1;
                }
                let r = JsonValue::Object(out);
                assert(r@ == self@) by {
                    assert(r@->Object_0 =~= self@->Object_0);
                }
                r
            },
        }
    }
}

/// The value that serde_json reads from a text, when the text is exactly one JSON value.
pub uninterp spec fn json_parse(text: Seq<char>) -> Option<JsonModel>;

/// The text that serde_json writes for a value, in its compact form.
pub uninterp spec fn json_text(v: JsonModel) -> Seq<char>;

/// The model of an optional value.
pub open spec fn option_model(r: Option<JsonValue>) -> Option<JsonModel> {
    match r {
        Some(v) => Some(v@),
        None => None,
    }
}

/// Moves a `serde_json::Value` into a `JsonValue`, variant for variant; the result
/// conversion of `parse_json`, apart only because it recurses.
#[verifier::external_body]
fn from_serde(v: serde_json::Value) -> JsonValue {
    match v {
        serde_json::Value::Null => JsonValue::Null,
        serde_json::Value::Bool(b) => JsonValue::Bool(b),
        serde_json::Value::Number(n) => JsonValue::Number(n),
        serde_json::Value::String(s) => JsonValue::String(s),
        serde_json::Value::Array(a) => JsonValue::Array(a.into_iter().map(from_serde).collect()),
        serde_json::Value::Object(m) => JsonValue::Object(
            m.into_iter().map(|(k, x)| (k, from_serde(x))).collect(),
        ),
    }
}

/// Builds the `serde_json::Value` of a `JsonValue`, variant for variant; the argument
/// conversion of `write_json`, apart only because it recurses.
#[verifier::external_body]
fn to_serde(v: &JsonValue) -> serde_json::Value {
    match v {
        JsonValue::Null => serde_json::Value::Null,
        JsonValue::Bool(b) => serde_json::Value::Bool(*b),
        JsonValue::Number(n) => serde_json::Value::Number(n.clone()),
        JsonValue::String(s) => serde_json::Value::String(s.clone()),
        JsonValue::Array(a) => serde_json::Value::Array(a.iter().map(to_serde).collect()),
        JsonValue::Object(m) => serde_json::Value::Object(
            m.iter().map(|(k, x)| (k.clone(), to_serde(x))).collect(),
        ),
    }
}

/// Relies on the `Display` of `serde_json::Value`: the compact JSON text of a value.
#[verifier::external_body]
fn write_json(v: &JsonValue) -> (r: String)
    ensures
        r@ == json_text(v@),
{
    to_serde(v).to_string()
}

/// Relies on `serde_json::from_str::<serde_json::Value>`: `Some` with the value when the
/// whole text is one JSON value, `None` otherwise.
#[verifier::external_body]
pub(crate) fn parse_json(text: &str) -> (r: Option<JsonValue>)
    ensures
        option_model(r) == json_parse(text@),
{
    serde_json::from_str::<serde_json::Value>(text).ok().map(from_serde)
}

impl JsonValue {
    /// The compact JSON text of the value.
    pub fn to_json_string(&self) -> (r: String)
        ensures
            r@ == json_text(self@),
    {
        write_json(self)
    }

    /// The value that a JSON text denotes, when the whole text is one JSON value.
    pub fn parse(text: &str) -> (r: Option<JsonValue>)
        ensures
            option_model(r) == json_parse(text@),
    {
        parse_json(text)
    }

    /// The value of the first member with the given name, when the value is an object.
    pub fn get(&self, key: &str) -> (r: Option<&JsonValue>)
        ensures
            (match r {
                Some(v) => Some(v@),
                None => None,
            }) == (match self@ {
                JsonModel::Object(members) => lookup(members, key@),
                _ => None,
            }),
    {
        match self {
            JsonValue::Object(members) => {
                let ghost model = self@->Object_0;
                let name = to_chars(key);
                let mut i: usize = 0;
                while i < members.len()
                    invariant
                        i <= members.len(),
                        name@ == key@,
                        model == self@->Object_0,
                        self@ is Object,
                        model.len() == members.len(),
                        forall|j: int| 0 <= j < members.len() ==> #[trigger] model[j] == (members[j].0@, members[j].1@),
                        forall|j: int| 0 <= j < i ==> !(#[trigger] model[j].0 == key@),
                    decreases members.len() - i,
                {
                    if same_chars(&to_chars(members[i].0.as_str()), &name) {
                        proof {
                            lemma_first_from_skip(model.len() as int, 0, i as int, |j: int| model[j].0 == key@);
                        }
                        return Some(&members[i].1);
                    }
                    i += 1;
                }
                proof {
                    lemma_first_from_skip(model.len() as int, 0, i as int, |j: int| model[j].0 == key@);
                }
                None
            },
            _ => None,
        }
    }

    /// The text of the value, when it is a string.
    pub fn as_str(&self) -> (r: Option<&str>)
        ensures
            match r {
                Some(t) => self@ == JsonModel::String(t@),
                None => !(self@ is String),
            },
    {
        match self {
            JsonValue::String(t) => Some(t.as_str()),
            _ => None,
        }
    }

    /// The items of the value, when it is an array.
    pub fn as_array(&self) -> (r: Option<&Vec<JsonValue>>)
        ensures
            match r {
                Some(items) => *self == JsonValue::Array(*items),
                None => !(self@ is Array),
            },
    {
        match self {
            JsonValue::Array(items) => Some(items),
            _ => None,
        }
    }

    /// The number, when the value is one.
    pub fn as_number(&self) -> (r: Option<&serde_json::Number>)
        ensures
            match r {
                Some(n) => self@ == JsonModel::Number(*n),
                None => !(self@ is Number),
            },
    {
        match self {
            JsonValue::Number(n) => Some(n),
            _ => None,
        }
    }

    /// Whether the value is an object.
    pub fn is_object(&self) -> (r: bool)
        ensures
            r == self@ is Object,
    {
        match self {
            JsonValue::Object(_) => true,
            _ => false,
        }
    }
}

} // verus!
