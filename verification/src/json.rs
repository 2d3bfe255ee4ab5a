use crate::text::str_eq;
use vstd::prelude::*;

verus! {

/// A JSON value as this library models it. Object entries keep the order in
/// which the underlying decoder yields them; numbers are integers (the census
/// metadata documents use no fractional numbers, and any other number is an
/// unrecognized shape).
#[derive(Debug, PartialEq)]
pub enum JsonValue {
    Null,
    Bool(bool),
    Int(i64),
    Str(String),
    Arr(Vec<JsonValue>),
    Obj(Vec<(String, JsonValue)>),
}

/// A structural or semantic mismatch between the expected and the actual JSON
/// shape of a document or a field.
#[derive(Debug, PartialEq, Eq)]
pub enum DecodeError {
    /// The document is not well-formed JSON (or holds a number outside the
    /// integer model); carries the decoder's message.
    Json(String),
    /// A field whose JSON shape is none of the accepted ones; carries the
    /// field's name.
    Shape(String),
    /// A reference date string in neither `YYYY` nor `YYYY-MM-DD` form;
    /// carries the offending string.
    Date(String),
    /// A limit string whose content does not parse as an integer; carries the
    /// offending string.
    Limit(String),
    /// The wildcard field holds the boolean `true`, which has no defined
    /// meaning.
    WildcardTrue,
}

/// First value bound to `key` among `entries` at or after index `i`.
pub open spec fn obj_get_from(
    entries: Seq<(String, JsonValue)>,
    key: Seq<char>,
    i: int,
) -> Option<JsonValue>
    decreases entries.len() - i,
{
    if i < 0 || i >= entries.len() {
        None
    } else if entries[i].0@ == key {
        Some(entries[i].1)
    } else {
        obj_get_from(entries, key, i + 1)
    }
}

/// First value bound to `key` among the object entries `entries`.
pub open spec fn spec_obj_get(entries: Seq<(String, JsonValue)>, key: Seq<char>) -> Option<
    JsonValue,
> {
    obj_get_from(entries, key, 0)
}

/// Look up `key` among object entries, first match wins.
#[verifier::loop_isolation(false)]
pub fn obj_get<'a>(entries: &'a Vec<(String, JsonValue)>, key: &str) -> (r: Option<&'a JsonValue>)
    ensures
        match r {
            Some(v) => spec_obj_get(entries@, key@) == Some(*v),
            None => spec_obj_get(entries@, key@) is None,
        },
{
    let mut i: usize = 0;
    while i < entries.len()
        invariant
            0 <= i <= entries@.len(),
            spec_obj_get(entries@, key@) == obj_get_from(entries@, key@, i as int),
        decreases entries@.len() - i,
    {
        if str_eq(entries[i].0.as_str(), key) {
            return Some(&entries[i].1);
        }
        i += 1;
    }
    None
}

/// The value behind an optional reference, for speaking of a looked-up field.
pub open spec fn opt_val(v: Option<&JsonValue>) -> Option<JsonValue> {
    match v {
        Some(x) => Some(*x),
        None => None,
    }
}

/// An optional string field: absent or null is nothing, a string is itself,
/// any other shape is refused.
pub open spec fn spec_decode_opt_str(v: Option<JsonValue>) -> Result<Option<Seq<char>>, ()> {
    match v {
        None => Ok(None),
        Some(JsonValue::Null) => Ok(None),
        Some(JsonValue::Str(s)) => Ok(Some(s@)),
        _ => Err(()),
    }
}

/// A required string field: only a string is accepted.
pub open spec fn spec_decode_req_str(v: Option<JsonValue>) -> Result<Seq<char>, ()> {
    match v {
        Some(JsonValue::Str(s)) => Ok(s@),
        _ => Err(()),
    }
}

/// An optional boolean field.
pub open spec fn spec_decode_opt_bool(v: Option<JsonValue>) -> Result<Option<bool>, ()> {
    match v {
        None => Ok(None),
        Some(JsonValue::Null) => Ok(None),
        Some(JsonValue::Bool(b)) => Ok(Some(b)),
        _ => Err(()),
    }
}

/// An optional small-integer field: only a native integer in `i16` range.
pub open spec fn spec_decode_opt_i16(v: Option<JsonValue>) -> Result<Option<i16>, ()> {
    match v {
        None => Ok(None),
        Some(JsonValue::Null) => Ok(None),
        Some(JsonValue::Int(n)) => if i16::MIN <= n <= i16::MAX {
            Ok(Some(n as i16))
        } else {
            Err(())
        },
        _ => Err(()),
    }
}

/// An optional integer field: only a native integer in `i32` range.
pub open spec fn spec_decode_opt_i32(v: Option<JsonValue>) -> Result<Option<i32>, ()> {
    match v {
        None => Ok(None),
        Some(JsonValue::Null) => Ok(None),
        Some(JsonValue::Int(n)) => if i32::MIN <= n <= i32::MAX {
            Ok(Some(n as i32))
        } else {
            Err(())
        },
        _ => Err(()),
    }
}

/// Decode an optional integer field.
pub fn decode_opt_i32(v: Option<&JsonValue>, field: &str) -> (r: Result<Option<i32>, DecodeError>)
    ensures
        (r is Ok) == (spec_decode_opt_i32(opt_val(v)) is Ok),
        r matches Ok(l) ==> l == spec_decode_opt_i32(opt_val(v))->Ok_0,
        r matches Err(e) ==> e matches DecodeError::Shape(m) && m@ == field@,
{
    match v {
        None => Ok(None),
        Some(JsonValue::Null) => Ok(None),
        Some(JsonValue::Int(n)) => {
            let n = *n;
            if -0x8000_0000i64 <= n && n <= 0x7fff_ffffi64 {
                Ok(Some(n as i32))
            } else {
                Err(DecodeError::Shape(String::from_str(field)))
            }
        },
        _ => Err(DecodeError::Shape(String::from_str(field))),
    }
}

/// True when every element of `items` is a JSON string or null.
pub open spec fn all_nullable_strings(items: Seq<JsonValue>) -> bool {
    forall|i: int|
        0 <= i < items.len() ==> ((#[trigger] items[i]) matches JsonValue::Str(_) || items[i]
            is Null)
}

/// The elements of a string-or-null array, nulls kept as nothing.
pub open spec fn nullable_string_views(items: Seq<JsonValue>) -> Seq<Option<Seq<char>>> {
    items.map_values(
        |j: JsonValue|
            match j {
                JsonValue::Str(s) => Some(s@),
                _ => None,
            },
    )
}

/// A required array field whose elements are strings or nulls.
pub open spec fn spec_decode_req_nullable_str_array(v: Option<JsonValue>) -> Result<
    Seq<Option<Seq<char>>>,
    (),
> {
    match v {
        Some(JsonValue::Arr(items)) => if all_nullable_strings(items@) {
            Ok(nullable_string_views(items@))
        } else {
            Err(())
        },
        _ => Err(()),
    }
}

/// Decode a required array of strings-or-nulls, each element owned.
#[verifier::loop_isolation(false)]
pub fn decode_req_nullable_str_array(v: Option<&JsonValue>, field: &str) -> (r: Result<
    Vec<Option<String>>,
    DecodeError,
>)
    ensures
        (r is Ok) == (spec_decode_req_nullable_str_array(opt_val(v)) is Ok),
        r matches Ok(s) ==> s.deep_view() == spec_decode_req_nullable_str_array(opt_val(v))->Ok_0,
        r matches Err(e) ==> e matches DecodeError::Shape(m) && m@ == field@,
{
    match v {
        Some(JsonValue::Arr(items)) => {
            let mut out: Vec<Option<String>> = Vec::new();
            let mut i: usize = 0;
            while i < items.len()
                invariant
                    0 <= i <= items@.len(),
                    forall|j: int|
                        0 <= j < i ==> ((#[trigger] items@[j]) matches JsonValue::Str(_)
                            || items@[j] is Null),
                    out.deep_view() == nullable_string_views(items@.subrange(0, i as int)),
                decreases items@.len() - i,
            {
                let ghost old_out = out.deep_view();
                let element: Option<String> = match &items[i] {
                    JsonValue::Str(s) => Some(s.clone()),
                    JsonValue::Null => None,
                    _ => {
                        return Err(DecodeError::Shape(String::from_str(field)));
                    },
                };
                out.push(element);
                proof {
                    assert(out.deep_view() =~= old_out.push(
                        match items@[i as int] {
                            JsonValue::Str(s) => Some(s@),
                            _ => None,
                        },
                    ));
                    assert(nullable_string_views(items@.subrange(0, i as int + 1))
                        =~= nullable_string_views(items@.subrange(0, i as int)).push(
                        match items@[i as int] {
                            JsonValue::Str(s) => Some(s@),
                            _ => None,
                        },
                    ));
                }
                i += 1;
            }
            proof {
                assert(items@.subrange(0, items@.len() as int) =~= items@);
            }
            Ok(out)
        },
        _ => Err(DecodeError::Shape(String::from_str(field))),
    }
}

/// True when every element of `items` is a JSON string.
pub open spec fn all_strings(items: Seq<JsonValue>) -> bool {
    forall|i: int| 0 <= i < items.len() ==> (#[trigger] items[i]) matches JsonValue::Str(_)
}

/// The character sequences of a sequence of JSON strings.
pub open spec fn string_views(items: Seq<JsonValue>) -> Seq<Seq<char>> {
    items.map_values(|j: JsonValue| j->Str_0@)
}

/// An optional array-of-strings field: absent or null is nothing, an array of
/// strings is itself, any other shape is refused.
pub open spec fn spec_decode_opt_str_array(v: Option<JsonValue>) -> Result<
    Option<Seq<Seq<char>>>,
    (),
> {
    match v {
        None => Ok(None),
        Some(JsonValue::Null) => Ok(None),
        Some(JsonValue::Arr(items)) => if all_strings(items@) {
            Ok(Some(string_views(items@)))
        } else {
            Err(())
        },
        _ => Err(()),
    }
}

/// Decode an optional string field.
pub fn decode_opt_str(v: Option<&JsonValue>, field: &str) -> (r: Result<Option<String>, DecodeError>)
    ensures
        (r is Ok) == (spec_decode_opt_str(opt_val(v)) is Ok),
        r matches Ok(s) ==> s.deep_view() == spec_decode_opt_str(opt_val(v))->Ok_0,
        r matches Err(e) ==> e matches DecodeError::Shape(m) && m@ == field@,
{
    match v {
        None => Ok(None),
        Some(JsonValue::Null) => Ok(None),
        Some(JsonValue::Str(s)) => Ok(Some(s.clone())),
        _ => Err(DecodeError::Shape(String::from_str(field))),
    }
}

/// Decode a required string field.
pub fn decode_req_str(v: Option<&JsonValue>, field: &str) -> (r: Result<String, DecodeError>)
    ensures
        (r is Ok) == (spec_decode_req_str(opt_val(v)) is Ok),
        r matches Ok(s) ==> s@ == spec_decode_req_str(opt_val(v))->Ok_0,
        r matches Err(e) ==> e matches DecodeError::Shape(m) && m@ == field@,
{
    match v {
        Some(JsonValue::Str(s)) => Ok(s.clone()),
        _ => Err(DecodeError::Shape(String::from_str(field))),
    }
}

/// Decode an optional boolean field.
pub fn decode_opt_bool(v: Option<&JsonValue>, field: &str) -> (r: Result<Option<bool>, DecodeError>)
    ensures
        (r is Ok) == (spec_decode_opt_bool(opt_val(v)) is Ok),
        r matches Ok(b) ==> b == spec_decode_opt_bool(opt_val(v))->Ok_0,
        r matches Err(e) ==> e matches DecodeError::Shape(m) && m@ == field@,
{
    match v {
        None => Ok(None),
        Some(JsonValue::Null) => Ok(None),
        Some(JsonValue::Bool(b)) => Ok(Some(*b)),
        _ => Err(DecodeError::Shape(String::from_str(field))),
    }
}

/// Decode an optional small-integer field.
pub fn decode_opt_i16(v: Option<&JsonValue>, field: &str) -> (r: Result<Option<i16>, DecodeError>)
    ensures
        (r is Ok) == (spec_decode_opt_i16(opt_val(v)) is Ok),
        r matches Ok(l) ==> l == spec_decode_opt_i16(opt_val(v))->Ok_0,
        r matches Err(e) ==> e matches DecodeError::Shape(m) && m@ == field@,
{
    match v {
        None => Ok(None),
        Some(JsonValue::Null) => Ok(None),
        Some(JsonValue::Int(n)) => {
            let n = *n;
            if -0x8000 <= n && n <= 0x7fff {
                Ok(Some(n as i16))
            } else {
                Err(DecodeError::Shape(String::from_str(field)))
            }
        },
        _ => Err(DecodeError::Shape(String::from_str(field))),
    }
}

/// Decode an optional array-of-strings field, each element owned.
#[verifier::loop_isolation(false)]
pub fn decode_opt_str_array(v: Option<&JsonValue>, field: &str) -> (r: Result<
    Option<Vec<String>>,
    DecodeError,
>)
    ensures
        (r is Ok) == (spec_decode_opt_str_array(opt_val(v)) is Ok),
        r matches Ok(s) ==> s.deep_view() == spec_decode_opt_str_array(opt_val(v))->Ok_0,
        r matches Err(e) ==> e matches DecodeError::Shape(m) && m@ == field@,
{
    match v {
        None => Ok(None),
        Some(JsonValue::Null) => Ok(None),
        Some(JsonValue::Arr(items)) => {
            let mut out: Vec<String> = Vec::new();
            let mut i: usize = 0;
            while i < items.len()
                invariant
                    0 <= i <= items@.len(),
                    forall|j: int|
                        0 <= j < i ==> (#[trigger] items@[j]) matches JsonValue::Str(_),
                    out.deep_view() == string_views(items@.subrange(0, i as int)),
                decreases items@.len() - i,
            {
                match &items[i] {
                    JsonValue::Str(s) => {
                        let ghost old_out = out.deep_view();
                        out.push(s.clone());
                        proof {
                            assert(out.deep_view() =~= old_out.push(s@));
                            assert(string_views(items@.subrange(0, i as int + 1)) =~= string_views(
                                items@.subrange(0, i as int),
                            ).push(items@[i as int]->Str_0@));
                        }
                    },
                    _ => {
                        return Err(DecodeError::Shape(String::from_str(field)));
                    },
                }
                i += 1;
            }
            proof {
                assert(items@.subrange(0, items@.len() as int) =~= items@);
            }
            Ok(Some(out))
        },
        _ => Err(DecodeError::Shape(String::from_str(field))),
    }
}

#[verifier::external_type_specification]
#[verifier::external_body]
pub struct ExValue(serde_json::Value);

/// Relies on serde_json::Value: each variant moves to the matching variant of
/// `JsonValue`, one arm each; a number that is not an `i64` integer is
/// refused, with its rendering as the message.
#[verifier::external_body]
fn json_value_from(v: serde_json::Value) -> (r: Result<JsonValue, String>) {
    match v {
        serde_json::Value::Null => Ok(JsonValue::Null),
        serde_json::Value::Bool(b) => Ok(JsonValue::Bool(b)),
        serde_json::Value::Number(n) => n.as_i64().map(JsonValue::Int).ok_or_else(
            || format!("{}", n),
        ),
        serde_json::Value::String(s) => Ok(JsonValue::Str(s)),
        serde_json::Value::Array(a) => a.into_iter().map(json_value_from).collect::<Result<
            Vec<_>,
            _,
        >>().map(JsonValue::Arr),
        serde_json::Value::Object(m) => m.into_iter().map(
            |(k, x)| json_value_from(x).map(|w| (k, w)),
        ).collect::<Result<Vec<_>, _>>().map(JsonValue::Obj),
    }
}

/// What decoding a document text into the JSON model yields: the value tree,
/// or the decoder's message on a text it refuses. Decoding depends on the
/// text alone — serde_json's parse is a pure function of its input (its
/// default object map keeps keys sorted), and so is the conversion.
pub uninterp spec fn json_doc_of(text: Seq<char>) -> Result<JsonValue, Seq<char>>;

/// Relies on serde_json::from_str: decodes the document text into a JSON
/// value tree, or reports the decoder's message on malformed input; either
/// way the outcome is `json_doc_of` the text.
#[verifier::external_body]
fn parse_json_wrapper(text: &str) -> (r: Result<JsonValue, String>)
    ensures
        (r is Ok) == (json_doc_of(text@) is Ok),
        r matches Ok(v) ==> v == json_doc_of(text@)->Ok_0,
        r matches Err(m) ==> m@ == json_doc_of(text@)->Err_0,
{
    match serde_json::from_str::<serde_json::Value>(text) {
        Ok(v) => json_value_from(v),
        Err(e) => Err(format!("{}", e)),
    }
}

/// Decode document text into the library's JSON model: exactly the value that
/// `json_doc_of` gives for this text, or its message as a `Json` error.
pub(crate) fn parse_json(text: &str) -> (r: Result<JsonValue, DecodeError>)
    ensures
        (r is Ok) == (json_doc_of(text@) is Ok),
        r matches Ok(v) ==> v == json_doc_of(text@)->Ok_0,
        r matches Err(e) ==> (e matches DecodeError::Json(m) && m@ == json_doc_of(text@)->Err_0),
{
    match parse_json_wrapper(text) {
        Ok(v) => Ok(v),
        Err(m) => Err(DecodeError::Json(m)),
    }
}

} // verus!
