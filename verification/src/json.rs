use vstd::prelude::*;

verus! {

#[verifier::external_type_specification]
#[verifier::external_body]
pub struct ExJsonDocument(serde_json::Value);

/// A JSON value, as far as the definition files need one: a number is kept where it is
/// an integer, and any other number is `Other`. Object members keep the order in which
/// the parser hands them out.
#[derive(Debug)]
pub enum JsonValue {
    Null,
    Bool(bool),
    Int(i128),
    Other,
    Str(String),
    Array(Vec<JsonValue>),
    Object(Vec<(String, JsonValue)>),
}

/// The mathematical value of a [`JsonValue`].
pub enum JsonModel {
    Null,
    Bool(bool),
    Int(int),
    Other,
    Str(Seq<char>),
    Array(Seq<JsonModel>),
    Object(Seq<(Seq<char>, JsonModel)>),
}

/// The model of a JSON value.
pub open spec fn json_model(j: JsonValue) -> JsonModel
    decreases j,
{
    match j {
        JsonValue::Null => JsonModel::Null,
        JsonValue::Bool(b) => JsonModel::Bool(b),
        JsonValue::Int(i) => JsonModel::Int(i as int),
        JsonValue::Other => JsonModel::Other,
        JsonValue::Str(s) => JsonModel::Str(s@),
        JsonValue::Array(items) => JsonModel::Array(
            Seq::new(
                items@.len(),
                |i: int|
                    if 0 <= i < items@.len() {
                        proof {
                            assert(decreases_to!(items => items@[i]));
                        }
                        json_model(items@[i])
                    } else {
                        JsonModel::Null
                    },
            ),
        ),
        JsonValue::Object(members) => JsonModel::Object(
            Seq::new(
                members@.len(),
                |i: int|
                    if 0 <= i < members@.len() {
                        proof {
                            assert(decreases_to!(members => members@[i]));
                        }
                        (members@[i].0@, json_model(members@[i].1))
                    } else {
                        (Seq::empty(), JsonModel::Null)
                    },
            ),
        ),
    }
}

impl View for JsonValue {
    type V = JsonModel;

    open spec fn view(&self) -> JsonModel {
        json_model(*self)
    }
}

/// The members of a JSON object, as models.
pub open spec fn members_model(ms: Seq<(String, JsonValue)>) -> Seq<(Seq<char>, JsonModel)> {
    Seq::new(ms.len(), |i: int| (ms[i].0@, json_model(ms[i].1)))
}

/// The items of a JSON array, as models.
pub open spec fn items_model(items: Seq<JsonValue>) -> Seq<JsonModel> {
    Seq::new(items.len(), |i: int| json_model(items[i]))
}

/// The model of an object holds the models of its members.
pub proof fn lemma_object_model(members: Vec<(String, JsonValue)>)
    ensures
        JsonValue::Object(members)@ == JsonModel::Object(members_model(members@)),
{
    assert(JsonValue::Object(members)@->Object_0 =~= members_model(members@));
}

/// The model of an array holds the models of its items.
pub proof fn lemma_array_model(items: Vec<JsonValue>)
    ensures
        JsonValue::Array(items)@ == JsonModel::Array(items_model(items@)),
{
    assert(JsonValue::Array(items)@->Array_0 =~= items_model(items@));
}

/// What `serde_json` reads from a text as a `serde_json::Value`, taken to a [`JsonModel`]:
/// `None` where the text is not one JSON document.
pub uninterp spec fn spec_json_of(text: Seq<char>) -> Option<JsonModel>;

/// Takes a `serde_json::Value` apart into a [`JsonValue`], variant by variant, moving the
/// fields; a number becomes `Int` where `serde_json::Number::as_i128` gives one (for every
/// integer that serde_json holds without its `arbitrary_precision` feature) and `Other`
/// where it gives none (a float). It is the conversion of the result of [`parse_json`],
/// apart only because the type is recursive; it has no contract of its own, and its result
/// reaches verified code only through `parse_json`.
#[verifier::external_body]
fn json_value_from(value: serde_json::Value) -> JsonValue {
    match value {
        serde_json::Value::Null => JsonValue::Null,
        serde_json::Value::Bool(b) => JsonValue::Bool(b),
        serde_json::Value::Number(n) => match n.as_i128() {
            Some(i) => JsonValue::Int(i),
            None => JsonValue::Other,
        },
        serde_json::Value::String(s) => JsonValue::Str(s),
        serde_json::Value::Array(items) => JsonValue::Array(items.into_iter().map(json_value_from).collect()),
        serde_json::Value::Object(map) => JsonValue::Object(map.into_iter().map(|(k, v)| (k, json_value_from(v))).collect()),
    }
}

/// Parses a text with `serde_json::from_str` into a `serde_json::Value` and takes that
/// apart into a [`JsonValue`]; `None` where serde_json returns an error. The contract
/// claims only that the result is a function of the text (serde_json's default object map
/// is a `BTreeMap`, so members come out in key order whatever the text's order, and a
/// repeated key keeps its last value): it is named [`spec_json_of`]. What that function
/// is, the JSON grammar as serde_json reads it, is not stated.
#[verifier::external_body]
pub(crate) fn parse_json(text: &str) -> (r: Option<JsonValue>)
    ensures
        match r {
            Some(v) => spec_json_of(text@) == Some(v@),
            None => spec_json_of(text@) is None,
        },
{
    serde_json::from_str::<serde_json::Value>(text).ok().map(json_value_from)
}

} // verus!
