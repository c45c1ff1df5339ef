use vstd::prelude::*;

use crate::json::{
    items_model, lemma_array_model, lemma_object_model, members_model, parse_json, spec_json_of,
    JsonModel, JsonValue,
};
use crate::parser::{
    occurs_in, scalar_type_named, utf8_of, vector_word, PayloadType, TypeDescription, VectorType,
};

verus! {

// ---------------------------------------------------------------------------------------
// Message definitions and their models
// ---------------------------------------------------------------------------------------

/// A field of a message definition.
#[derive(Debug)]
pub struct Payload {
    pub name: String,
    pub description: Option<String>,
    pub typ: PayloadType,
    pub units: Option<String>,
}

/// A message of the protocol as its definition file describes it.
#[derive(Debug)]
pub struct MessageDefinition {
    pub name: String,
    pub id: u16,
    pub description: String,
    pub payload: Vec<Payload>,
}

pub struct PayloadModel {
    pub name: Seq<char>,
    pub description: Option<Seq<char>>,
    pub typ: PayloadType,
    pub units: Option<Seq<char>>,
}

pub struct MessageDefinitionModel {
    pub name: Seq<char>,
    pub id: u16,
    pub description: Seq<char>,
    pub payload: Seq<PayloadModel>,
}

/// The characters of an optional string.
pub open spec fn optional_chars(s: Option<String>) -> Option<Seq<char>> {
    match s {
        Some(x) => Some(x@),
        None => None,
    }
}

impl View for Payload {
    type V = PayloadModel;

    open spec fn view(&self) -> PayloadModel {
        PayloadModel {
            name: self.name@,
            description: optional_chars(self.description),
            typ: self.typ,
            units: optional_chars(self.units),
        }
    }
}

impl View for MessageDefinition {
    type V = MessageDefinitionModel;

    open spec fn view(&self) -> MessageDefinitionModel {
        MessageDefinitionModel {
            name: self.name@,
            id: self.id,
            description: self.description@,
            payload: Seq::new(self.payload@.len(), |i: int| self.payload@[i]@),
        }
    }
}

/// The messages of each category, as [`parse_description`] returns them, taken to models.
pub open spec fn definitions_view(r: Seq<(String, Vec<(String, MessageDefinition)>)>) -> Seq<
    (Seq<char>, Seq<(Seq<char>, MessageDefinitionModel)>),
> {
    Seq::new(r.len(), |i: int| (r[i].0@, messages_view(r[i].1@)))
}

/// The messages of one category taken to models.
pub open spec fn messages_view(ms: Seq<(String, MessageDefinition)>) -> Seq<(Seq<char>, MessageDefinitionModel)> {
    Seq::new(ms.len(), |k: int| (ms[k].0@, ms[k].1@))
}

// ---------------------------------------------------------------------------------------
// Reading JSON values
// ---------------------------------------------------------------------------------------

/// The first member named `key` among `members`.
pub open spec fn member(members: Seq<(Seq<char>, JsonModel)>, key: Seq<char>) -> Option<JsonModel>
    decreases members.len(),
{
    if members.len() == 0 {
        None
    } else if members[0].0 == key {
        Some(members[0].1)
    } else {
        member(members.drop_first(), key)
    }
}

/// The member `key` of a JSON value: `None` where the value is no object or has no such
/// member.
pub open spec fn get(v: JsonModel, key: Seq<char>) -> Option<JsonModel> {
    match v {
        JsonModel::Object(members) => member(members, key),
        _ => None,
    }
}

/// The member `inner` of the member `outer` of a JSON value.
pub open spec fn pointer(v: JsonModel, outer: Seq<char>, inner: Seq<char>) -> Option<JsonModel> {
    match get(v, outer) {
        Some(x) => get(x, inner),
        None => None,
    }
}

/// An optional text member: `Some(None)` where it is missing, `Some(Some(text))` where it
/// is a string, and `None` where it is something else, which the definition files do not
/// allow.
pub open spec fn optional_text(v: JsonModel, key: Seq<char>) -> Option<Option<Seq<char>>> {
    match get(v, key) {
        None => Some(None),
        Some(JsonModel::Str(s)) => Some(Some(s)),
        Some(_) => None,
    }
}

/// A JSON value is an object.
pub open spec fn is_object(v: JsonModel) -> bool {
    v is Object
}

/// A JSON value is an object whose member values are all objects.
pub open spec fn is_object_of_objects(v: JsonModel) -> bool {
    &&& v is Object
    &&& forall|k: int| 0 <= k < v->Object_0.len() ==> #[trigger] is_object(v->Object_0[k].1)
}

// ---------------------------------------------------------------------------------------
// What a definition file describes
// ---------------------------------------------------------------------------------------

/// The type that a field's type name, element type name and length type name describe,
/// where they describe one.
pub open spec fn type_of_names(
    typ: Seq<char>,
    data: Option<Seq<char>>,
    size: Option<Seq<char>>,
) -> Option<PayloadType> {
    if occurs_in(vector_word(), utf8_of(typ)) {
        match data {
            Some(d) => match scalar_type_named(utf8_of(d)) {
                Some(data_type) => match size {
                    None => Some(
                        PayloadType::VECTOR(Box::new(VectorType { data_type, size_type: None })),
                    ),
                    Some(s) => match scalar_type_named(utf8_of(s)) {
                        Some(size_type) => Some(
                            PayloadType::VECTOR(
                                Box::new(VectorType { data_type, size_type: Some(size_type) }),
                            ),
                        ),
                        None => None,
                    },
                },
                None => None,
            },
            None => None,
        }
    } else {
        scalar_type_named(utf8_of(typ))
    }
}

/// The type of a payload field: its `type` member names a scalar type, or holds the word
/// "vector" and its `vector` member names the element type (`datatype`) and, if it has
/// one, the length type (`sizetype`).
pub open spec fn spec_payload_type(v: JsonModel) -> Option<PayloadType> {
    match get(v, "type"@) {
        Some(JsonModel::Str(t)) => if occurs_in(vector_word(), utf8_of(t)) {
            match (pointer(v, "vector"@, "datatype"@), pointer(v, "vector"@, "sizetype"@)) {
                (Some(JsonModel::Str(d)), None) => type_of_names(t, Some(d), None),
                (Some(JsonModel::Str(d)), Some(JsonModel::Str(s))) => type_of_names(
                    t,
                    Some(d),
                    Some(s),
                ),
                _ => None,
            }
        } else {
            type_of_names(t, None, None)
        },
        _ => None,
    }
}

/// A payload field of a message definition: a `name` string, optional `description` and
/// `units` strings, and a type.
pub open spec fn spec_payload(v: JsonModel) -> Option<PayloadModel> {
    match (get(v, "name"@), optional_text(v, "description"@), spec_payload_type(v), optional_text(v, "units"@)) {
        (Some(JsonModel::Str(name)), Some(description), Some(typ), Some(units)) => Some(
            PayloadModel { name, description, typ, units },
        ),
        _ => None,
    }
}

/// A message definition named `name`: an `id` that is an unsigned 64-bit integer, of which
/// the low 16 bits are kept; a `description`, empty where it is missing or no string; and
/// a `payload` array of fields.
pub open spec fn spec_message_definition(name: Seq<char>, v: JsonModel) -> Option<
    MessageDefinitionModel,
> {
    match (get(v, "id"@), get(v, "payload"@)) {
        (Some(JsonModel::Int(n)), Some(JsonModel::Array(items))) => if 0 <= n <= u64::MAX && (
        forall|k: int| 0 <= k < items.len() ==> (#[trigger] spec_payload(items[k])) is Some) {
            Some(
                MessageDefinitionModel {
                    name,
                    id: (n % 0x10000) as u16,
                    description: match get(v, "description"@) {
                        Some(JsonModel::Str(s)) => s,
                        _ => Seq::empty(),
                    },
                    payload: Seq::new(items.len(), |k: int| spec_payload(items[k])->0),
                },
            )
        } else {
            None
        },
        _ => None,
    }
}

/// The messages of a category: each member is a message definition under its name.
pub open spec fn spec_category(c: JsonModel) -> Option<Seq<(Seq<char>, MessageDefinitionModel)>> {
    match c {
        JsonModel::Object(ms) => if forall|k: int|
            0 <= k < ms.len() ==> (#[trigger] spec_message_definition(ms[k].0, ms[k].1)) is Some {
            Some(Seq::new(ms.len(), |k: int| (ms[k].0, spec_message_definition(ms[k].0, ms[k].1)->0)))
        } else {
            None
        },
        _ => None,
    }
}

/// What a definition file describes: its top level is an object of objects of objects,
/// and its member `messages` holds the categories, each an object of message definitions.
pub open spec fn spec_definitions(j: JsonModel) -> Option<
    Seq<(Seq<char>, Seq<(Seq<char>, MessageDefinitionModel)>)>,
> {
    match j {
        JsonModel::Object(top) => if forall|i: int|
            0 <= i < top.len() ==> #[trigger] is_object_of_objects(top[i].1) {
            match member(top, "messages"@) {
                Some(JsonModel::Object(cats)) => if forall|i: int|
                    0 <= i < cats.len() ==> (#[trigger] spec_category(cats[i].1)) is Some {
                    Some(Seq::new(cats.len(), |i: int| (cats[i].0, spec_category(cats[i].1)->0)))
                } else {
                    None
                },
                _ => None,
            }
        } else {
            None
        },
        _ => None,
    }
}

/// Every message definition read from a definition file carries the name of the member
/// that holds it.
pub proof fn law_definitions_named_by_their_keys(j: JsonModel)
    requires
        spec_definitions(j) is Some,
    ensures
        forall|c: int, k: int|
            0 <= c < spec_definitions(j)->0.len() && 0 <= k < spec_definitions(j)->0[c].1.len()
                ==> (#[trigger] spec_definitions(j)->0[c].1[k]).1.name
                == spec_definitions(j)->0[c].1[k].0,
{
    let cats = member(j->Object_0, "messages"@)->0->Object_0;
    assert forall|c: int, k: int|
        0 <= c < spec_definitions(j)->0.len() && 0 <= k < spec_definitions(j)->0[c].1.len()
            implies (#[trigger] spec_definitions(j)->0[c].1[k]).1.name
            == spec_definitions(j)->0[c].1[k].0 by {
        assert(spec_category(cats[c].1) is Some);
        let ms = cats[c].1->Object_0;
        assert(spec_message_definition(ms[k].0, ms[k].1) is Some);
    }
}

/// The members of a JSON object; none for any other value.
pub open spec fn members_of(v: JsonModel) -> Seq<(Seq<char>, JsonModel)> {
    match v {
        JsonModel::Object(ms) => ms,
        _ => Seq::empty(),
    }
}

/// A message definition read from a JSON value is named `name`, has the `description`
/// member as description where it is a string and an empty one otherwise, has as id the value of the
/// `id` member, an unsigned 64-bit integer, kept as its low 16 bits (so exactly that value
/// where it is below 2^16), and has one payload field per item of the `payload` array, in
/// order, each named by the item's `name` member.
pub proof fn law_message_definition_reads_its_members(name: Seq<char>, v: JsonModel)
    requires
        spec_message_definition(name, v) is Some,
    ensures
        ({
            let d = spec_message_definition(name, v)->0;
            &&& d.name == name
            &&& get(v, "description"@) matches Some(JsonModel::Str(text)) ==> d.description == text
            &&& !(get(v, "description"@) matches Some(JsonModel::Str(_))) ==> d.description.len()
                == 0
            &&& get(v, "id"@) matches Some(JsonModel::Int(n)) && 0 <= n < 0x1_0000_0000_0000_0000
                && d.id as int == n % 0x10000 && (n < 0x10000 ==> d.id == n)
            &&& get(v, "payload"@) matches Some(JsonModel::Array(items)) && d.payload.len()
                == items.len() && forall|k: int|
                0 <= k < items.len() ==> get(items[k], "name"@) == Some(
                    JsonModel::Str(#[trigger] d.payload[k].name),
                )
        }),
{
    let items = get(v, "payload"@)->0->Array_0;
    assert forall|k: int| 0 <= k < items.len() implies get(items[k], "name"@) == Some(
        JsonModel::Str(#[trigger] spec_message_definition(name, v)->0.payload[k].name),
    ) by {
        assert(spec_payload(items[k]) is Some);
    }
}

/// A message definition is read from every JSON object with an `id` member that is an
/// unsigned 64-bit integer and a `payload` array whose items are all readable fields.
pub proof fn law_message_definition_is_read(name: Seq<char>, v: JsonModel, n: int, items: Seq<JsonModel>)
    requires
        get(v, "id"@) == Some(JsonModel::Int(n)),
        0 <= n < 0x1_0000_0000_0000_0000,
        get(v, "payload"@) == Some(JsonModel::Array(items)),
        forall|k: int| 0 <= k < items.len() ==> #[trigger] spec_payload(items[k]) is Some,
    ensures
        spec_message_definition(name, v) is Some,
{
}

/// A payload field with a `name` string and a `type` string that names a scalar type, and
/// no `description` or `units`, is read as a field of that name and type.
pub proof fn law_scalar_field_is_read(v: JsonModel, name: Seq<char>, typ: Seq<char>)
    requires
        get(v, "name"@) == Some(JsonModel::Str(name)),
        get(v, "type"@) == Some(JsonModel::Str(typ)),
        !occurs_in(vector_word(), utf8_of(typ)),
        scalar_type_named(utf8_of(typ)) is Some,
        get(v, "description"@) is None,
        get(v, "units"@) is None,
    ensures
        spec_payload(v) == Some(
            PayloadModel {
                name,
                description: None,
                typ: scalar_type_named(utf8_of(typ))->0,
                units: None,
            },
        ),
{
}

/// A payload field read from a JSON value is named by its `name` member; its description
/// and units are the `description` and `units` members, `None` where they are missing; and
/// where its `type` member names no vector, its type is the scalar type that member names.
pub proof fn law_payload_field_reads_its_members(v: JsonModel)
    requires
        spec_payload(v) is Some,
    ensures
        ({
            let p = spec_payload(v)->0;
            &&& get(v, "name"@) == Some(JsonModel::Str(p.name))
            &&& get(v, "description"@) is None ==> p.description is None
            &&& get(v, "description"@) matches Some(JsonModel::Str(text)) ==> p.description
                == Some(text)
            &&& get(v, "units"@) is None ==> p.units is None
            &&& get(v, "units"@) matches Some(JsonModel::Str(text)) ==> p.units == Some(text)
            &&& get(v, "type"@) matches Some(JsonModel::Str(t)) && (!occurs_in(
                vector_word(),
                utf8_of(t),
            ) ==> Some(p.typ) == scalar_type_named(utf8_of(t)))
        }),
{
}

/// A payload field whose `type` member holds the word "vector" is a vector of the element
/// type that `vector/datatype` names, with the length type that `vector/sizetype` names, or
/// none (a string) where that member is missing.
pub proof fn law_vector_field_type(v: JsonModel, t: Seq<char>, data: Seq<char>)
    requires
        get(v, "type"@) == Some(JsonModel::Str(t)),
        occurs_in(vector_word(), utf8_of(t)),
        pointer(v, "vector"@, "datatype"@) == Some(JsonModel::Str(data)),
        scalar_type_named(utf8_of(data)) is Some,
    ensures
        pointer(v, "vector"@, "sizetype"@) is None ==> spec_payload_type(v) == Some(
            PayloadType::VECTOR(
                Box::new(
                    VectorType { data_type: scalar_type_named(utf8_of(data))->0, size_type: None },
                ),
            ),
        ),
        forall|size: Seq<char>|
            pointer(v, "vector"@, "sizetype"@) == Some(JsonModel::Str(size)) && (
            #[trigger] scalar_type_named(utf8_of(size))) is Some ==> spec_payload_type(v) == Some(
                PayloadType::VECTOR(
                    Box::new(
                        VectorType {
                            data_type: scalar_type_named(utf8_of(data))->0,
                            size_type: scalar_type_named(utf8_of(size)),
                        },
                    ),
                ),
            ),
{
}

/// What is read from a definition file follows the file: one category per member of its
/// `messages` object, in order and under the member's name, and in each category one
/// message definition per member of the category's object, in order, under the member's
/// name and read from the member's value.
pub proof fn law_definitions_follow_the_file(j: JsonModel)
    requires
        spec_definitions(j) is Some,
    ensures
        ({
            let r = spec_definitions(j)->0;
            &&& member(members_of(j), "messages"@) matches Some(JsonModel::Object(cats))
                && r.len() == cats.len() && forall|c: int|
                0 <= c < cats.len() ==> {
                    &&& (#[trigger] r[c]).0 == cats[c].0
                    &&& r[c].1.len() == members_of(cats[c].1).len()
                    &&& forall|k: int|
                        0 <= k < r[c].1.len() ==> (#[trigger] r[c].1[k]).0 == members_of(
                            cats[c].1,
                        )[k].0 && Some(r[c].1[k].1) == spec_message_definition(
                            members_of(cats[c].1)[k].0,
                            members_of(cats[c].1)[k].1,
                        )
                }
        }),
{
    let cats = member(members_of(j), "messages"@)->0->Object_0;
    let r = spec_definitions(j)->0;
    assert forall|c: int| 0 <= c < cats.len() implies {
        &&& (#[trigger] r[c]).0 == cats[c].0
        &&& r[c].1.len() == members_of(cats[c].1).len()
        &&& forall|k: int|
            0 <= k < r[c].1.len() ==> (#[trigger] r[c].1[k]).0 == members_of(cats[c].1)[k].0
                && Some(r[c].1[k].1) == spec_message_definition(
                members_of(cats[c].1)[k].0,
                members_of(cats[c].1)[k].1,
            )
    } by {
        assert(spec_category(cats[c].1) is Some);
        let ms = members_of(cats[c].1);
        assert forall|k: int| 0 <= k < r[c].1.len() implies (#[trigger] r[c].1[k]).0 == ms[k].0
            && Some(r[c].1[k].1) == spec_message_definition(ms[k].0, ms[k].1) by {
            assert(spec_message_definition(ms[k].0, ms[k].1) is Some);
        }
    }
}

/// A definition file is read whenever its top level is an object of objects of objects with
/// a `messages` member, and every message definition in it can be read.
pub proof fn law_definitions_are_read(j: JsonModel)
    requires
        j is Object,
        forall|i: int|
            0 <= i < members_of(j).len() ==> #[trigger] is_object_of_objects(members_of(j)[i].1),
        member(members_of(j), "messages"@) is Some,
        forall|c: int, k: int|
            0 <= c < members_of(member(members_of(j), "messages"@)->0).len() && 0 <= k
                < members_of(members_of(member(members_of(j), "messages"@)->0)[c].1).len()
                ==> (#[trigger] spec_message_definition(
                members_of(members_of(member(members_of(j), "messages"@)->0)[c].1)[k].0,
                members_of(members_of(member(members_of(j), "messages"@)->0)[c].1)[k].1,
            )) is Some,
    ensures
        spec_definitions(j) is Some,
{
    let top = members_of(j);
    lemma_member_is_a_member(top, "messages"@);
    let m = member(top, "messages"@)->0;
    let cats = members_of(m);
    assert(is_object_of_objects(m));
    assert forall|c: int| 0 <= c < cats.len() implies (#[trigger] spec_category(cats[c].1)) is Some by {
        assert(is_object(cats[c].1));
        let ms = members_of(cats[c].1);
        assert forall|k: int| 0 <= k < ms.len() implies (#[trigger] spec_message_definition(
            ms[k].0,
            ms[k].1,
        )) is Some by {
            assert(spec_message_definition(
                members_of(members_of(member(members_of(j), "messages"@)->0)[c].1)[k].0,
                members_of(members_of(member(members_of(j), "messages"@)->0)[c].1)[k].1,
            ) is Some);
        }
    }
}

/// The member found under a key is the value of one of the members.
proof fn lemma_member_is_a_member(ms: Seq<(Seq<char>, JsonModel)>, key: Seq<char>)
    requires
        member(ms, key) is Some,
    ensures
        exists|i: int| 0 <= i < ms.len() && #[trigger] ms[i].1 == member(ms, key)->0,
    decreases ms.len(),
{
    if ms[0].0 == key {
        assert(ms[0].1 == member(ms, key)->0);
    } else {
        lemma_member_is_a_member(ms.drop_first(), key);
        let i = choose|i: int| 0 <= i < ms.drop_first().len() && #[trigger] ms.drop_first()[i].1
            == member(ms.drop_first(), key)->0;
        assert(ms[i + 1].1 == member(ms, key)->0);
    }
}

// ---------------------------------------------------------------------------------------
// Reading a definition file
// ---------------------------------------------------------------------------------------

/// The member `key` of a JSON value, where it is an object that has one.
fn get_member<'a>(v: &'a JsonValue, key: &String) -> (r: Option<&'a JsonValue>)
    ensures
        match r {
            Some(x) => get(v@, key@) == Some(x@),
            None => get(v@, key@) is None,
        },
{
    match v {
        JsonValue::Object(members) => {
            let ghost ms = members_model(members@);
            proof {
                lemma_object_model(*members);
            }
            assert(ms.skip(0) =~= ms);
            let mut i: usize = 0;
            while i < members.len()
                invariant
                    i <= members@.len(),
                    ms == members_model(members@),
                    member(ms, key@) == member(ms.skip(i as int), key@),
                    v@ == JsonModel::Object(ms),
                decreases members@.len() - i,
            {
                assert(ms.skip(i as int)[0] == ms[i as int]);
                if members[i].0 == *key {
                    assert(ms[i as int].0 == key@);
                    assert(ms[i as int].1 == members@[i as int].1@);
                    return Some(&members[i].1);
                }
                assert(ms.skip(i as int).drop_first() =~= ms.skip(i + 1));
                i += 1;
            }
            assert(ms.skip(i as int).len() == 0);
            None
        },
        _ => None,
    }
}

/// An optional text member (see [`optional_text`]).
fn text_member(v: &JsonValue, key: &String) -> (r: Option<Option<String>>)
    ensures
        match r {
            Some(t) => optional_text(v@, key@) == Some(optional_chars(t)),
            None => optional_text(v@, key@) is None,
        },
{
    match get_member(v, key) {
        None => Some(None),
        Some(JsonValue::Str(s)) => Some(Some(s.clone())),
        Some(_) => None,
    }
}

/// The type of a payload field of a definition file (see [`spec_payload_type`]).
fn payload_type_from_json(v: &JsonValue) -> (r: Option<PayloadType>)
    ensures
        r == spec_payload_type(v@),
{
    let typ = match get_member(v, &"type".to_owned()) {
        Some(JsonValue::Str(t)) => t,
        _ => return None,
    };
    let description = if crate::parser::names_vector(typ.as_str()) {
        let vector_key = "vector".to_owned();
        let (datatype, sizetype) = match get_member(v, &vector_key) {
            Some(vector) => (
                get_member(vector, &"datatype".to_owned()),
                get_member(vector, &"sizetype".to_owned()),
            ),
            None => (None, None),
        };
        let data = match datatype {
            Some(JsonValue::Str(d)) => d.clone(),
            _ => return None,
        };
        let size = match sizetype {
            None => None,
            Some(JsonValue::Str(s)) => Some(s.clone()),
            Some(_) => return None,
        };
        TypeDescription { typ: typ.clone(), vector_datatype: Some(data), vector_sizetype: size }
    } else {
        TypeDescription { typ: typ.clone(), vector_datatype: None, vector_sizetype: None }
    };
    if !description.is_readable() {
        return None;
    }
    Some(PayloadType::from_json(&description))
}

/// A payload field of a definition file (see [`spec_payload`]).
fn payload_from_json(v: &JsonValue) -> (r: Option<Payload>)
    ensures
        match r {
            Some(p) => spec_payload(v@) == Some(p@),
            None => spec_payload(v@) is None,
        },
{
    let name = match get_member(v, &"name".to_owned()) {
        Some(JsonValue::Str(n)) => n.clone(),
        _ => return None,
    };
    let description = match text_member(v, &"description".to_owned()) {
        Some(d) => d,
        None => return None,
    };
    let typ = match payload_type_from_json(v) {
        Some(t) => t,
        None => return None,
    };
    let units = match text_member(v, &"units".to_owned()) {
        Some(u) => u,
        None => return None,
    };
    Some(Payload { name, description, typ, units })
}

/// Reads the message definition named `name` from its JSON value in a definition file.
/// `None` where the value has no `id` that is an unsigned 64-bit integer, no `payload`
/// array, or a payload field that cannot be read (see [`spec_message_definition`]).
pub fn message_definition_from_json(name: &String, value: &JsonValue) -> (r: Option<
    MessageDefinition,
>)
    ensures
        match r {
            Some(d) => spec_message_definition(name@, value@) == Some(d@),
            None => spec_message_definition(name@, value@) is None,
        },
{
    let id: u16 = match get_member(value, &"id".to_owned()) {
        Some(JsonValue::Int(n)) => {
            if 0 <= *n && *n <= 0xffff_ffff_ffff_ffffi128 {
                (*n % 0x10000) as u16
            } else {
                return None;
            }
        },
        _ => return None,
    };
    let description = match get_member(value, &"description".to_owned()) {
        Some(JsonValue::Str(s)) => s.clone(),
        _ => String::new(),
    };
    let items = match get_member(value, &"payload".to_owned()) {
        Some(JsonValue::Array(items)) => items,
        _ => return None,
    };
    let ghost models = items_model(items@);
    proof {
        lemma_array_model(*items);
    }
    let mut payload: Vec<Payload> = Vec::new();
    let mut i: usize = 0;
    while i < items.len()
        invariant
            i <= items@.len(),
            models == items_model(items@),
            get(value@, "payload"@) == Some(JsonModel::Array(models)),
            payload@.len() == i,
            forall|k: int| 0 <= k < i ==> #[trigger] spec_payload(models[k]) == Some(payload@[k]@),
        decreases items@.len() - i,
    {
        match payload_from_json(&items[i]) {
            Some(p) => payload.push(p),
            None => {
                assert(spec_payload(models[i as int]) is None);
                return None;
            },
        }
        i += 1;
    }
    let definition = MessageDefinition { name: name.clone(), id, description, payload };
    assert(definition@.payload =~= Seq::new(models.len(), |k: int| spec_payload(models[k])->0));
    Some(definition)
}

/// Whether a JSON value is an object whose member values are all objects.
fn object_of_objects(v: &JsonValue) -> (b: bool)
    ensures
        b == is_object_of_objects(v@),
{
    match v {
        JsonValue::Object(members) => {
            let ghost ms = members_model(members@);
            proof {
                lemma_object_model(*members);
            }
            let mut k: usize = 0;
            while k < members.len()
                invariant
                    k <= members@.len(),
                    ms == members_model(members@),
                    v@ == JsonModel::Object(ms),
                    forall|j: int| 0 <= j < k ==> #[trigger] is_object(ms[j].1),
                decreases members@.len() - k,
            {
                match &members[k].1 {
                    JsonValue::Object(_) => {},
                    _ => {
                        assert(ms[k as int].1 == members@[k as int].1@);
                        assert(!is_object(ms[k as int].1));
                        assert(JsonModel::Object(ms)->Object_0 == ms);
                        return false;
                    },
                }
                k += 1;
            }
            true
        },
        _ => false,
    }
}

/// The message definitions of one category.
fn category_from_json(c: &JsonValue) -> (r: Option<Vec<(String, MessageDefinition)>>)
    ensures
        match r {
            Some(ms) => spec_category(c@) == Some(messages_view(ms@)),
            None => spec_category(c@) is None,
        },
{
    match c {
        JsonValue::Object(members) => {
            let ghost ms = members_model(members@);
            proof {
                lemma_object_model(*members);
            }
            let mut defs: Vec<(String, MessageDefinition)> = Vec::new();
            let mut k: usize = 0;
            while k < members.len()
                invariant
                    k <= members@.len(),
                    ms == members_model(members@),
                    c@ == JsonModel::Object(ms),
                    defs@.len() == k,
                    forall|j: int|
                        0 <= j < k ==> #[trigger] spec_message_definition(ms[j].0, ms[j].1) == Some(
                            defs@[j].1@,
                        ) && defs@[j].0@ == ms[j].0,
                decreases members@.len() - k,
            {
                match message_definition_from_json(&members[k].0, &members[k].1) {
                    Some(d) => defs.push((members[k].0.clone(), d)),
                    None => {
                        assert(spec_message_definition(ms[k as int].0, ms[k as int].1) is None);
                        return None;
                    },
                }
                k += 1;
            }
            assert(messages_view(defs@) =~= Seq::new(
                ms.len(),
                |j: int| (ms[j].0, spec_message_definition(ms[j].0, ms[j].1)->0),
            ));
            Some(defs)
        },
        _ => None,
    }
}

/// Reads a definition file: for each category under the top-level member `messages`, the
/// message definitions it holds, each under its name, in the order in which the JSON
/// parser hands the members out. `None` where the text is no JSON document, is not an
/// object of objects of objects, has no `messages` member, or holds a message definition
/// that cannot be read.
pub fn parse_description(text: &str) -> (r: Option<Vec<(String, Vec<(String, MessageDefinition)>)>>)
    ensures
        match r {
            Some(v) => spec_json_of(text@) matches Some(j) && spec_definitions(j) == Some(
                definitions_view(v@),
            ),
            None => match spec_json_of(text@) {
                Some(j) => spec_definitions(j) is None,
                None => true,
            },
        },
{
    let json = match parse_json(text) {
        Some(j) => j,
        None => return None,
    };
    let top = match &json {
        JsonValue::Object(top) => top,
        _ => return None,
    };
    let ghost tm = members_model(top@);
    proof {
        lemma_object_model(*top);
    }
    let mut i: usize = 0;
    while i < top.len()
        invariant
            i <= top@.len(),
            tm == members_model(top@),
            spec_json_of(text@) == Some(json@),
            json@ == JsonModel::Object(tm),
            forall|j: int| 0 <= j < i ==> #[trigger] is_object_of_objects(tm[j].1),
        decreases top@.len() - i,
    {
        if !object_of_objects(&top[i].1) {
            assert(tm[i as int].1 == top@[i as int].1@);
            assert(!is_object_of_objects(tm[i as int].1));
            return None;
        }
        i += 1;
    }
    let cats = match get_member(&json, &"messages".to_owned()) {
        Some(JsonValue::Object(cats)) => cats,
        _ => return None,
    };
    let ghost cm = members_model(cats@);
    proof {
        lemma_object_model(*cats);
    }
    let mut result: Vec<(String, Vec<(String, MessageDefinition)>)> = Vec::new();
    let mut c: usize = 0;
    while c < cats.len()
        invariant
            c <= cats@.len(),
            cm == members_model(cats@),
            spec_json_of(text@) == Some(json@),
            json@ == JsonModel::Object(tm),
            forall|j: int| 0 <= j < tm.len() ==> #[trigger] is_object_of_objects(tm[j].1),
            member(tm, "messages"@) == Some(JsonModel::Object(cm)),
            result@.len() == c,
            forall|j: int|
                0 <= j < c ==> #[trigger] spec_category(cm[j].1) == Some(messages_view(result@[j].1@))
                    && result@[j].0@ == cm[j].0,
        decreases cats@.len() - c,
    {
        match category_from_json(&cats[c].1) {
            Some(defs) => result.push((cats[c].0.clone(), defs)),
            None => {
                assert(spec_category(cm[c as int].1) is None);
                return None;
            },
        }
        c += 1;
    }
    assert(definitions_view(result@) =~= Seq::new(
        cm.len(),
        |j: int| (cm[j].0, spec_category(cm[j].1)->0),
    ));
    Some(result)
}

} // verus!
