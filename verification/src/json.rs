//! JSON as the command-line tools print it, reduced to what this node reads of it.

use vstd::prelude::*;

use crate::text::same;

verus! {

/// What a JSON value stands for.
pub enum JsonView {
    Bool(bool),
    /// A whole number from 0 to what 64 bits hold.
    Count(u64),
    Text(Seq<char>),
    Array(Seq<JsonView>),
    /// The fields of an object with their values.
    Object(Seq<(Seq<char>, JsonView)>),
    /// `null`, or a number of another kind.
    Other,
}

/// A JSON value.
pub enum Json {
    Bool(bool),
    Count(u64),
    Text(String),
    Array(Vec<Json>),
    Object(Vec<(String, Json)>),
    Other,
}

/// What a [`Json`] stands for.
pub open spec fn view_of(value: Json) -> JsonView
    decreases value,
{
    match value {
        Json::Bool(b) => JsonView::Bool(b),
        Json::Count(n) => JsonView::Count(n),
        Json::Text(s) => JsonView::Text(s@),
        Json::Array(items) => JsonView::Array(
            Seq::new(
                items@.len(),
                |i: int|
                    if 0 <= i < items@.len() {
                        view_of(items@[i])
                    } else {
                        JsonView::Other
                    },
            ),
        ),
        Json::Object(fields) => JsonView::Object(
            Seq::new(
                fields@.len(),
                |i: int|
                    if 0 <= i < fields@.len() {
                        (fields@[i].0@, view_of(fields@[i].1))
                    } else {
                        (Seq::empty(), JsonView::Other)
                    },
            ),
        ),
        Json::Other => JsonView::Other,
    }
}

impl View for Json {
    type V = JsonView;

    open spec fn view(&self) -> JsonView {
        view_of(*self)
    }
}

// ---------------------------------------------------------------------------------------------
// What is taken from serde_json
// ---------------------------------------------------------------------------------------------

/// A value as `serde_json` holds it.
#[verifier::external_type_specification]
#[verifier::external_body]
pub struct ExValue(serde_json::Value);

/// What a `serde_json` value holds: its scalars, and the values inside an array or an object.
pub uninterp spec fn held(value: serde_json::Value) -> JsonView;

/// What a text is as JSON, if it is JSON at all.
pub uninterp spec fn parsed_text(s: Seq<char>) -> Option<JsonView>;

/// What a row of bytes is as JSON, or what is wrong with it.
pub uninterp spec fn parsed_bytes(bytes: Seq<u8>) -> Result<JsonView, Seq<char>>;

/// `serde_json::from_str` into a `Value`: what comes out depends on the text alone. What JSON is,
/// and where nesting gets too deep for it, is not stated.
#[verifier::external_body]
fn parse_text(s: &str) -> (out: Option<serde_json::Value>)
    ensures
        out is Some == parsed_text(s@) is Some,
        out matches Some(value) ==> parsed_text(s@) == Some(held(value)),
{
    serde_json::from_str(s).ok()
}

/// `serde_json::from_slice` into a `Value`: what comes out, the wording of an error included,
/// depends on the bytes alone. What JSON is, and where nesting gets too deep for it, is not stated.
#[verifier::external_body]
fn parse_bytes(bytes: &Vec<u8>) -> (out: Result<serde_json::Value, String>)
    ensures
        out is Ok == parsed_bytes(bytes@) is Ok,
        out matches Ok(value) ==> held(value) == parsed_bytes(bytes@)->Ok_0,
        out matches Err(error) ==> error@ == parsed_bytes(bytes@)->Err_0,
{
    serde_json::from_slice(bytes).map_err(|error| error.to_string())
}

/// `Value::as_bool` gives the boolean that a value is.
pub assume_specification[ serde_json::Value::as_bool ](value: &serde_json::Value) -> (out: Option<
    bool,
>)
    ensures
        out == match held(*value) {
            JsonView::Bool(b) => Some(b),
            _ => None,
        },
;

/// `Value::as_u64` gives the number that a value is, where it is whole and not negative and fits.
pub assume_specification[ serde_json::Value::as_u64 ](value: &serde_json::Value) -> (out: Option<
    u64,
>)
    ensures
        out == match held(*value) {
            JsonView::Count(n) => Some(n),
            _ => None,
        },
;

/// `Value::as_str` gives the text that a value is.
pub assume_specification[ serde_json::Value::as_str ](value: &serde_json::Value) -> (out: Option<
    &str,
>)
    ensures
        out is Some == held(*value) is Text,
        out matches Some(s) ==> held(*value) == JsonView::Text(s@),
;

/// `Value::as_array` gives the items of an array, in order.
pub assume_specification[ serde_json::Value::as_array ](value: &serde_json::Value) -> (out: Option<
    &Vec<serde_json::Value>,
>)
    ensures
        out is Some == held(*value) is Array,
        out matches Some(items) ==> held(*value) == JsonView::Array(
            Seq::new(items@.len(), |i: int| held(items@[i])),
        ),
;

/// `Value::as_object` and `Map::iter` give the fields of an object with their values, in the
/// order that the map keeps; no field comes twice.
#[verifier::external_body]
fn fields_of(value: &serde_json::Value) -> (out: Option<Vec<(&String, &serde_json::Value)>>)
    ensures
        out is Some == held(*value) is Object,
        out matches Some(fields) ==> held(*value) == JsonView::Object(
            Seq::new(fields@.len(), |i: int| ((*fields@[i].0)@, held(*fields@[i].1))),
        ),
        out matches Some(fields) ==> forall|i: int, j: int|
            0 <= i < j < fields@.len() ==> (*(#[trigger] fields@[i]).0)@ != (*(
            #[trigger] fields@[j]).0)@,
{
    value.as_object().map(|map| map.iter().collect())
}

// ---------------------------------------------------------------------------------------------
// Reading
// ---------------------------------------------------------------------------------------------

fn convert(value: &serde_json::Value) -> (out: Json)
    ensures
        out@ == held(*value),
    decreases held(*value),
{
    if let Some(b) = value.as_bool() {
        return Json::Bool(b);
    }
    if let Some(n) = value.as_u64() {
        return Json::Count(n);
    }
    if let Some(s) = value.as_str() {
        return Json::Text(s.to_owned());
    }
    if let Some(items) = value.as_array() {
        let ghost whole = Seq::new(items@.len(), |k: int| held(items@[k]));
        let mut out: Vec<Json> = Vec::new();
        let mut i: usize = 0;
        while i < items.len()
            invariant
                i <= items@.len(),
                out@.len() == i,
                held(*value) == JsonView::Array(whole),
                whole == Seq::new(items@.len(), |k: int| held(items@[k])),
                forall|k: int| 0 <= k < i ==> view_of(#[trigger] out@[k]) == held(items@[k]),
            decreases items@.len() - i,
        {
            assert(decreases_to!(held(*value) => held(*value)->Array_0));
            assert(decreases_to!(whole => whole[i as int]));
            out.push(convert(&items[i]));
            i += 1;
        }
        let json = Json::Array(out);
        assert(json@->Array_0 == whole);
        return json;
    }
    if let Some(fields) = fields_of(value) {
        let ghost whole = Seq::new(fields@.len(), |k: int| ((*fields@[k].0)@, held(*fields@[k].1)));
        let mut out: Vec<(String, Json)> = Vec::new();
        let mut i: usize = 0;
        while i < fields.len()
            invariant
                i <= fields@.len(),
                out@.len() == i,
                held(*value) == JsonView::Object(whole),
                whole == Seq::new(
                    fields@.len(),
                    |k: int| ((*fields@[k].0)@, held(*fields@[k].1)),
                ),
                forall|k: int|
                    0 <= k < i ==> (#[trigger] out@[k]).0@ == (*fields@[k].0)@ && view_of(out@[k].1)
                        == held(*fields@[k].1),
            decreases fields@.len() - i,
        {
            assert(decreases_to!(held(*value) => held(*value)->Object_0));
            assert(decreases_to!(whole => whole[i as int]));
            assert(decreases_to!(whole[i as int] => whole[i as int].1));
            let name = fields[i].0.clone();
            let inner = convert(fields[i].1);
            out.push((name, inner));
            i += 1;
        }
        let json = Json::Object(out);
        assert(json@->Object_0 == whole);
        return json;
    }
    Json::Other
}

/// Reads a text as JSON.
pub fn read_text(s: &str) -> (out: Option<Json>)
    ensures
        out is Some == parsed_text(s@) is Some,
        out matches Some(json) ==> parsed_text(s@) == Some(json@),
{
    match parse_text(s) {
        Some(value) => Some(convert(&value)),
        None => None,
    }
}

/// Reads a row of bytes as JSON.
pub fn read_bytes(bytes: &Vec<u8>) -> (out: Result<Json, String>)
    ensures
        out is Ok == parsed_bytes(bytes@) is Ok,
        out matches Ok(json) ==> json@ == parsed_bytes(bytes@)->Ok_0,
        out matches Err(error) ==> error@ == parsed_bytes(bytes@)->Err_0,
{
    match parse_bytes(bytes) {
        Ok(value) => Ok(convert(&value)),
        Err(error) => Err(error),
    }
}

// ---------------------------------------------------------------------------------------------
// Looking inside
// ---------------------------------------------------------------------------------------------

/// The value of a field.
pub open spec fn entry(fields: Seq<(Seq<char>, JsonView)>, name: Seq<char>) -> Option<JsonView>
    decreases fields.len(),
{
    if fields.len() == 0 {
        None
    } else if fields[0].0 == name {
        Some(fields[0].1)
    } else {
        entry(fields.drop_first(), name)
    }
}

/// The value of a field, where there is an object that has it.
pub open spec fn at(value: Option<JsonView>, name: Seq<char>) -> Option<JsonView> {
    match value {
        Some(JsonView::Object(fields)) => entry(fields, name),
        _ => None,
    }
}

/// The text that a value is, where it is one.
pub open spec fn text_at(value: Option<JsonView>) -> Option<Seq<char>> {
    match value {
        Some(JsonView::Text(s)) => Some(s),
        _ => None,
    }
}

/// The text that a value is, or nothing.
pub open spec fn text_or_empty(value: Option<JsonView>) -> Seq<char> {
    match text_at(value) {
        Some(s) => s,
        None => Seq::empty(),
    }
}

/// The items that a value has, where it is an array.
pub open spec fn items_at(value: Option<JsonView>) -> Option<Seq<JsonView>> {
    match value {
        Some(JsonView::Array(items)) => Some(items),
        _ => None,
    }
}

/// What a borrowed value stands for.
pub open spec fn seen(value: Option<&Json>) -> Option<JsonView> {
    match value {
        Some(json) => Some(json@),
        None => None,
    }
}

/// The value of a field, where there is an object that has it.
pub fn get_at<'a>(value: Option<&'a Json>, name: &str) -> (out: Option<&'a Json>)
    ensures
        seen(out) == at(seen(value), name@),
{
    match value {
        Some(Json::Object(fields)) => {
            let ghost whole = value->0@->Object_0;
            let mut i: usize = 0;
            assert(whole.skip(0) == whole);
            while i < fields.len()
                invariant
                    i <= fields@.len(),
                    value == Some(&Json::Object(*fields)),
                    whole == value->0@->Object_0,
                    whole.len() == fields@.len(),
                    entry(whole, name@) == entry(whole.skip(i as int), name@),
                decreases fields@.len() - i,
            {
                assert(whole[i as int] == (fields@[i as int].0@, view_of(fields@[i as int].1)));
                assert(whole.skip(i as int).drop_first() == whole.skip(i + 1));
                if same(fields[i].0.as_str(), name) {
                    return Some(&fields[i].1);
                }
                i += 1;
            }
            None
        },
        _ => None,
    }
}

/// The text that a value is, where it is one.
pub fn get_text(value: Option<&Json>) -> (out: Option<String>)
    ensures
        out.deep_view() == text_at(seen(value)),
{
    match value {
        Some(Json::Text(s)) => Some(s.clone()),
        _ => None,
    }
}

/// The text that a value is, or nothing.
pub fn get_text_or_empty(value: Option<&Json>) -> (out: String)
    ensures
        out@ == text_or_empty(seen(value)),
{
    match get_text(value) {
        Some(s) => s,
        None => String::new(),
    }
}

/// The items that a value has, where it is an array.
pub fn get_items<'a>(value: Option<&'a Json>) -> (out: Option<&'a Vec<Json>>)
    ensures
        out is Some == items_at(seen(value)) is Some,
        out matches Some(items) ==> {
            let whole = items_at(seen(value))->0;
            &&& whole.len() == items@.len()
            &&& forall|i: int| 0 <= i < items@.len() ==> #[trigger] items@[i]@ == whole[i]
        },
{
    match value {
        Some(Json::Array(items)) => Some(items),
        _ => None,
    }
}

// ---------------------------------------------------------------------------------------------
// What reading a value keeps to
// ---------------------------------------------------------------------------------------------

/// The value of a name is that of the first field that has it. Where no field has it, and in what
/// is no object, there is none.
pub proof fn a_name_leads_to_its_field(value: Option<JsonView>, name: Seq<char>, i: int)
    ensures
        value matches Some(JsonView::Object(fields)) ==> {
            &&& 0 <= i < fields.len() && fields[i].0 == name && (forall|k: int|
                0 <= k < i ==> (#[trigger] fields[k]).0 != name) ==> at(value, name) == Some(
                fields[i].1,
            )
            &&& at(value, name) is None <==> forall|k: int|
                0 <= k < fields.len() ==> (#[trigger] fields[k]).0 != name
        },
        !(value is Some && value->0 is Object) ==> at(value, name) is None,
{
    if let Some(JsonView::Object(fields)) = value {
        lemma_entry(fields, name, i);
    }
}

proof fn lemma_entry(fields: Seq<(Seq<char>, JsonView)>, name: Seq<char>, i: int)
    ensures
        0 <= i < fields.len() && fields[i].0 == name && (forall|k: int|
            0 <= k < i ==> (#[trigger] fields[k]).0 != name) ==> entry(fields, name) == Some(
            fields[i].1,
        ),
        entry(fields, name) is None <==> forall|k: int|
            0 <= k < fields.len() ==> (#[trigger] fields[k]).0 != name,
    decreases fields.len(),
{
    if fields.len() > 0 && fields[0].0 != name {
        let rest = fields.drop_first();
        lemma_entry(rest, name, i - 1);
        if forall|k: int| 0 <= k < i ==> (#[trigger] fields[k]).0 != name {
            assert forall|k: int| 0 <= k < i - 1 && k < rest.len() implies (
            #[trigger] rest[k]).0 != name by {
                assert(rest[k] == fields[k + 1]);
            }
        }
        if forall|k: int| 0 <= k < rest.len() ==> (#[trigger] rest[k]).0 != name {
            assert forall|k: int| 0 <= k < fields.len() implies (#[trigger] fields[k]).0 != name by {
                if k > 0 {
                    assert(rest[k - 1] == fields[k]);
                }
            }
        }
        if forall|k: int| 0 <= k < fields.len() ==> (#[trigger] fields[k]).0 != name {
            assert forall|k: int| 0 <= k < rest.len() implies (#[trigger] rest[k]).0 != name by {
                assert(rest[k] == fields[k + 1]);
            }
        }
    } else if fields.len() > 0 {
        assert(fields[0].0 == name);
    }
}

/// Only a text is read as text and only an array as items, each as it is; what is missing or
/// something else is read as no text, and where a text has to be given, as the empty one.
pub proof fn a_value_is_read_as_what_it_is(value: Option<JsonView>, s: Seq<char>, items: Seq<JsonView>)
    ensures
        text_at(value) == Some(s) <==> value == Some(JsonView::Text(s)),
        items_at(value) == Some(items) <==> value == Some(JsonView::Array(items)),
        value == Some(JsonView::Text(s)) ==> text_or_empty(value) == s,
        !(value is Some && value->0 is Text) ==> text_or_empty(value) == Seq::<char>::empty(),
{
}

} // verus!
