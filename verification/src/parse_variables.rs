use crate::json::{
    decode_opt_bool, decode_opt_i16, decode_opt_str, json_doc_of, obj_get, opt_val, parse_json,
    spec_decode_opt_bool, spec_decode_opt_i16, spec_decode_opt_str, spec_obj_get, DecodeError,
    JsonValue,
};
use crate::text::{spec_split, split_string, trim_one, trim_one_char, SplitRule};
use vstd::prelude::*;
use vstd::string::*;

verus! {

/// One variable of an endpoint: one entry of the top-level `variables` map of
/// a `variables.json` document, with the map key as its `name`.
#[derive(Debug, PartialEq)]
pub struct VariablesItem {
    /// Identity assigned by the store at persistence time; 0 until then.
    pub id: i32,
    pub name: String,
    pub label: Vec<String>,
    pub concept: Option<String>,
    pub required: Option<String>,
    pub predicate_type: Option<String>,
    pub group: Option<Vec<String>>,
    pub limit: Option<i16>,
    pub predicate_only: Option<bool>,
    pub attributes: Option<Vec<String>>,
}

/// The mathematical shape of a `VariablesItem`.
#[verifier::ext_equal]
pub struct VariablesItemV {
    pub id: int,
    pub name: Seq<char>,
    pub label: Seq<Seq<char>>,
    pub concept: Option<Seq<char>>,
    pub required: Option<Seq<char>>,
    pub predicate_type: Option<Seq<char>>,
    pub group: Option<Seq<Seq<char>>>,
    pub limit: Option<i16>,
    pub predicate_only: Option<bool>,
    pub attributes: Option<Seq<Seq<char>>>,
}

impl View for VariablesItem {
    type V = VariablesItemV;

    open spec fn view(&self) -> VariablesItemV {
        VariablesItemV {
            id: self.id as int,
            name: self.name@,
            label: self.label.deep_view(),
            concept: self.concept.deep_view(),
            required: self.required.deep_view(),
            predicate_type: self.predicate_type.deep_view(),
            group: self.group.deep_view(),
            limit: self.limit,
            predicate_only: self.predicate_only,
            attributes: self.attributes.deep_view(),
        }
    }
}

impl DeepView for VariablesItem {
    type V = VariablesItemV;

    open spec fn deep_view(&self) -> VariablesItemV {
        self.view()
    }
}

/// A parsed `variables.json` document.
#[derive(Debug, PartialEq)]
pub struct VariablesCollection {
    pub variables: Vec<VariablesItem>,
}

/// The required `label` field: a single delimited string, split into its
/// parts after one `:` is trimmed from each end.
pub open spec fn spec_decode_label(v: Option<JsonValue>) -> Result<Seq<Seq<char>>, ()> {
    match v {
        Some(JsonValue::Str(s)) => Ok(spec_split(SplitRule::Label, trim_one(s@, ':'))),
        _ => Err(()),
    }
}

/// An optional comma-delimited field: absent is nothing; a string is split at
/// commas after one space is trimmed from each end; any other shape is
/// refused.
pub open spec fn spec_decode_comma_list(v: Option<JsonValue>) -> Result<Option<Seq<Seq<char>>>, ()> {
    match v {
        None => Ok(None),
        Some(JsonValue::Str(s)) => Ok(Some(spec_split(SplitRule::Comma, trim_one(s@, ' ')))),
        _ => Err(()),
    }
}

/// Decode the `label` field. Splitting always yields at least one part.
pub fn decode_label(v: Option<&JsonValue>, field: &str) -> (r: Result<Vec<String>, DecodeError>)
    ensures
        (r is Ok) == (spec_decode_label(opt_val(v)) is Ok),
        r matches Ok(l) ==> l.deep_view() == spec_decode_label(opt_val(v))->Ok_0 && l@.len() >= 1,
        r matches Err(e) ==> e matches DecodeError::Shape(m) && m@ == field@,
{
    match v {
        Some(JsonValue::Str(s)) => {
            let trimmed = trim_one_char(s.as_str(), ':');
            let parts = split_string(SplitRule::Label, trimmed);
            Ok(parts)
        },
        _ => Err(DecodeError::Shape(String::from_str(field))),
    }
}

/// Decode a comma-delimited list field (`group`, `attributes`).
pub fn decode_comma_list(v: Option<&JsonValue>, field: &str) -> (r: Result<
    Option<Vec<String>>,
    DecodeError,
>)
    ensures
        (r is Ok) == (spec_decode_comma_list(opt_val(v)) is Ok),
        r matches Ok(l) ==> l.deep_view() == spec_decode_comma_list(opt_val(v))->Ok_0,
        r matches Err(e) ==> e matches DecodeError::Shape(m) && m@ == field@,
{
    match v {
        None => Ok(None),
        Some(JsonValue::Str(s)) => {
            let trimmed = trim_one_char(s.as_str(), ' ');
            let parts = split_string(SplitRule::Comma, trimmed);
            Ok(Some(parts))
        },
        _ => Err(DecodeError::Shape(String::from_str(field))),
    }
}

/// One entry of the `variables` map, decoded field by field; the record's
/// `name` is the map key, whatever the value object holds.
pub open spec fn spec_variables_item(name: Seq<char>, j: JsonValue) -> Result<VariablesItemV, ()> {
    match j {
        JsonValue::Obj(entries) => {
            let label = spec_decode_label(spec_obj_get(entries@, "label"@));
            let concept = spec_decode_opt_str(spec_obj_get(entries@, "concept"@));
            let required = spec_decode_opt_str(spec_obj_get(entries@, "required"@));
            let pt = spec_decode_opt_str(spec_obj_get(entries@, "predicateType"@));
            let group = spec_decode_comma_list(spec_obj_get(entries@, "group"@));
            let limit = spec_decode_opt_i16(spec_obj_get(entries@, "limit"@));
            let po = spec_decode_opt_bool(spec_obj_get(entries@, "predicateOnly"@));
            let attrs = spec_decode_comma_list(spec_obj_get(entries@, "attributes"@));
            if label is Ok && concept is Ok && required is Ok && pt is Ok && group is Ok && limit
                is Ok && po is Ok && attrs is Ok {
                Ok(
                    VariablesItemV {
                        id: 0,
                        name: name,
                        label: label->Ok_0,
                        concept: concept->Ok_0,
                        required: required->Ok_0,
                        predicate_type: pt->Ok_0,
                        group: group->Ok_0,
                        limit: limit->Ok_0,
                        predicate_only: po->Ok_0,
                        attributes: attrs->Ok_0,
                    },
                )
            } else {
                Err(())
            }
        },
        _ => Err(()),
    }
}

/// Decode one entry of the `variables` map.
pub fn decode_variables_item(name: &String, j: &JsonValue) -> (r: Result<
    VariablesItem,
    DecodeError,
>)
    ensures
        (r is Ok) == (spec_variables_item(name@, *j) is Ok),
        r matches Ok(it) ==> it@ == spec_variables_item(name@, *j)->Ok_0 && it.label@.len() >= 1,
{
    match j {
        JsonValue::Obj(entries) => {
            let label = decode_label(obj_get(entries, "label"), "label")?;
            let concept = decode_opt_str(obj_get(entries, "concept"), "concept")?;
            let required = decode_opt_str(obj_get(entries, "required"), "required")?;
            let pt = decode_opt_str(obj_get(entries, "predicateType"), "predicateType")?;
            let group = decode_comma_list(obj_get(entries, "group"), "group")?;
            let limit = decode_opt_i16(obj_get(entries, "limit"), "limit")?;
            let po = decode_opt_bool(obj_get(entries, "predicateOnly"), "predicateOnly")?;
            let attrs = decode_comma_list(obj_get(entries, "attributes"), "attributes")?;
            Ok(
                VariablesItem {
                    id: 0,
                    name: name.clone(),
                    label,
                    concept,
                    required,
                    predicate_type: pt,
                    group,
                    limit,
                    predicate_only: po,
                    attributes: attrs,
                },
            )
        },
        _ => Err(DecodeError::Shape(String::from_str("variables"))),
    }
}

/// The entries of the `variables` map from index `i` on, each decoded with
/// its key as the record name; the first refused entry refuses the whole map.
pub open spec fn vars_items_from(entries: Seq<(String, JsonValue)>, i: int) -> Result<
    Seq<VariablesItemV>,
    (),
>
    decreases entries.len() - i,
{
    if i < 0 || i >= entries.len() {
        Ok(Seq::empty())
    } else {
        let hd = spec_variables_item(entries[i].0@, entries[i].1);
        let tl = vars_items_from(entries, i + 1);
        if hd is Ok && tl is Ok {
            Ok(seq![hd->Ok_0] + tl->Ok_0)
        } else {
            Err(())
        }
    }
}

/// A whole `variables.json` document: an object whose `variables` member is a
/// map from variable name to a description object; the map is flattened into
/// a list, each record's `name` taken from its key.
pub open spec fn spec_parse_variables(j: JsonValue) -> Result<Seq<VariablesItemV>, ()> {
    match j {
        JsonValue::Obj(entries) => match spec_obj_get(entries@, "variables"@) {
            Some(JsonValue::Obj(ventries)) => vars_items_from(ventries@, 0),
            _ => Err(()),
        },
        _ => Err(()),
    }
}

/// Decode a whole `variables.json` document given as a JSON value.
#[verifier::loop_isolation(false)]
pub fn parse_variables_value(j: &JsonValue) -> (r: Result<VariablesCollection, DecodeError>)
    ensures
        (r is Ok) == (spec_parse_variables(*j) is Ok),
        r matches Ok(c) ==> c.variables.deep_view() == spec_parse_variables(*j)->Ok_0,
        r matches Ok(c) ==> forall|k: int|
            0 <= k < c.variables@.len() ==> (#[trigger] c.variables@[k]).label@.len() >= 1,
{
    match j {
        JsonValue::Obj(entries) => {
            match obj_get(entries, "variables") {
                Some(JsonValue::Obj(ventries)) => {
                    let mut variables: Vec<VariablesItem> = Vec::new();
                    let mut i: usize = 0;
                    while i < ventries.len()
                        invariant
                            0 <= i <= ventries@.len(),
                            vars_items_from(ventries@, 0) == (match vars_items_from(
                                ventries@,
                                i as int,
                            ) {
                                Ok(rest) => Ok(variables.deep_view() + rest),
                                Err(e) => Err(e),
                            }),
                            forall|k: int|
                                0 <= k < variables@.len() ==> (#[trigger] variables@[k]).label@.len()
                                    >= 1,
                        decreases ventries@.len() - i,
                    {
                        match decode_variables_item(&ventries[i].0, &ventries[i].1) {
                            Ok(it) => {
                                let ghost old_vars = variables.deep_view();
                                variables.push(it);
                                proof {
                                    assert(variables.deep_view() =~= old_vars.push(it@));
                                    if vars_items_from(ventries@, i as int + 1) is Ok {
                                        assert(old_vars + vars_items_from(
                                            ventries@,
                                            i as int,
                                        )->Ok_0 =~= variables.deep_view() + vars_items_from(
                                            ventries@,
                                            i as int + 1,
                                        )->Ok_0);
                                    }
                                }
                            },
                            Err(e) => {
                                return Err(e);
                            },
                        }
                        i += 1;
                    }
                    proof {
                        assert(variables.deep_view() + vars_items_from(
                            ventries@,
                            ventries@.len() as int,
                        )->Ok_0 =~= variables.deep_view());
                    }
                    Ok(VariablesCollection { variables })
                },
                _ => Err(DecodeError::Shape(String::from_str("variables"))),
            }
        },
        _ => Err(DecodeError::Shape(String::from_str("variables"))),
    }
}

/// Parse a `variables.json` document from its raw text: the records that
/// `spec_parse_variables` gives for the JSON decoding of this text, exactly
/// when the text is well-formed JSON of the accepted shape. Every record's
/// `label` holds at least one part.
pub fn parse_variables(text: &str) -> (r: Result<VariablesCollection, DecodeError>)
    ensures
        (r is Ok) == (json_doc_of(text@) is Ok && spec_parse_variables(
            json_doc_of(text@)->Ok_0,
        ) is Ok),
        r matches Ok(c) ==> c.variables.deep_view() == spec_parse_variables(
            json_doc_of(text@)->Ok_0,
        )->Ok_0,
        json_doc_of(text@) is Err ==> (r matches Err(e) && e matches DecodeError::Json(m) && m@
            == json_doc_of(text@)->Err_0),
        r matches Ok(c) ==> forall|k: int|
            0 <= k < c.variables@.len() ==> (#[trigger] c.variables@[k]).label@.len() >= 1,
{
    let j = parse_json(text)?;
    let c = parse_variables_value(&j)?;
    Ok(c)
}

} // verus!
