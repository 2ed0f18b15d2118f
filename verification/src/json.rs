//! JSON values.

use vstd::prelude::*;

verus! {

/// A JSON value. The fields of an object are in the order in which they were added.
#[derive(Debug)]
pub enum Json {
    Bool(bool),
    Number(u64),
    Text(String),
    List(Vec<Json>),
    Fields(Vec<(String, Json)>),
    /// A value that is written down already.
    Raw(String),
}

/// The values in a `Json`.
pub enum JsonValue {
    Bool(bool),
    Number(nat),
    Text(Seq<char>),
    List(Seq<JsonValue>),
    Fields(Seq<(Seq<char>, JsonValue)>),
    Raw(Seq<char>),
}

impl Json {
    /// The values in this one.
    pub open spec fn value(self) -> JsonValue
        decreases self,
    {
        match self {
            Json::Bool(b) => JsonValue::Bool(b),
            Json::Number(n) => JsonValue::Number(n as nat),
            Json::Text(s) => JsonValue::Text(s@),
            Json::List(items) => JsonValue::List(
                Seq::new(
                    items@.len(),
                    |i: int|
                        if 0 <= i < items@.len() {
                            items@[i].value()
                        } else {
                            arbitrary()
                        },
                ),
            ),
            Json::Fields(fields) => JsonValue::Fields(
                Seq::new(
                    fields@.len(),
                    |i: int|
                        if 0 <= i < fields@.len() {
                            (fields@[i].0@, fields@[i].1.value())
                        } else {
                            arbitrary()
                        },
                ),
            ),
            Json::Raw(s) => JsonValue::Raw(s@),
        }
    }
}

impl View for Json {
    type V = JsonValue;

    open spec fn view(&self) -> JsonValue {
        self.value()
    }
}

/// The values of a list.
pub open spec fn item_values(items: Seq<Json>) -> Seq<JsonValue> {
    Seq::new(items.len(), |i: int| items[i]@)
}

/// The names and values of fields.
pub open spec fn field_values(fields: Seq<(String, Json)>) -> Seq<(Seq<char>, JsonValue)> {
    Seq::new(fields.len(), |i: int| (fields[i].0@, fields[i].1@))
}

/// A text.
pub(crate) fn text(s: &str) -> (json: Json)
    ensures
        json@ == JsonValue::Text(s@),
{
    Json::Text(s.to_owned())
}

/// A list.
pub(crate) fn list(items: Vec<Json>) -> (json: Json)
    ensures
        json@ == JsonValue::List(item_values(items@)),
{
    let ghost values = item_values(items@);
    let json = Json::List(items);
    assert(json@->List_0 =~= values);
    json
}

/// An object.
pub(crate) fn object(fields: Vec<(String, Json)>) -> (json: Json)
    ensures
        json@ == JsonValue::Fields(field_values(fields@)),
{
    let ghost values = field_values(fields@);
    let json = Json::Fields(fields);
    assert(json@->Fields_0 =~= values);
    json
}

/// Adds a field.
pub(crate) fn push_field(fields: &mut Vec<(String, Json)>, name: &str, value: Json)
    ensures
        field_values(final(fields)@) == field_values(old(fields)@).push((name@, value@)),
{
    let ghost added = (name@, value@);
    fields.push((name.to_owned(), value));
    assert(field_values(fields@) =~= field_values(old(fields)@).push(added));
}

} // verus!
