use crate::calendar::{spec_parse_date, parse_date, CalendarDate};
use crate::json::{
    all_strings, decode_opt_str, decode_opt_str_array, decode_req_str, json_doc_of, obj_get,
    opt_val,
    parse_json, spec_decode_opt_str, spec_decode_opt_str_array, spec_decode_req_str, spec_obj_get,
    string_views, DecodeError, JsonValue,
};
use crate::text::{spec_parse_i32, parse_i32, trim_all, trim_all_char};
use vstd::prelude::*;
use vstd::string::*;

verus! {

/// One supported geographic aggregation level of an endpoint: one entry of a
/// `geography.json` document's `fips` array.
#[derive(Debug, PartialEq)]
pub struct GeographyItem {
    /// Identity assigned by the store at persistence time; 0 until then.
    pub id: i32,
    pub name: String,
    pub geo_level_display: Option<String>,
    pub reference_date: Option<CalendarDate>,
    pub requires_list: Option<Vec<String>>,
    pub wildcard: Option<Vec<String>>,
    pub limit: Option<i32>,
    pub geo_level_id: Option<String>,
    pub optional_with_wildcard_for: Option<String>,
}

/// The mathematical shape of a `GeographyItem`.
#[verifier::ext_equal]
pub struct GeographyItemV {
    pub id: int,
    pub name: Seq<char>,
    pub geo_level_display: Option<Seq<char>>,
    pub reference_date: Option<CalendarDate>,
    pub requires_list: Option<Seq<Seq<char>>>,
    pub wildcard: Option<Seq<Seq<char>>>,
    pub limit: Option<i32>,
    pub geo_level_id: Option<Seq<char>>,
    pub optional_with_wildcard_for: Option<Seq<char>>,
}

impl View for GeographyItem {
    type V = GeographyItemV;

    open spec fn view(&self) -> GeographyItemV {
        GeographyItemV {
            id: self.id as int,
            name: self.name@,
            geo_level_display: self.geo_level_display.deep_view(),
            reference_date: self.reference_date,
            requires_list: self.requires_list.deep_view(),
            wildcard: self.wildcard.deep_view(),
            limit: self.limit,
            geo_level_id: self.geo_level_id.deep_view(),
            optional_with_wildcard_for: self.optional_with_wildcard_for.deep_view(),
        }
    }
}

impl DeepView for GeographyItem {
    type V = GeographyItemV;

    open spec fn deep_view(&self) -> GeographyItemV {
        self.view()
    }
}

/// A parsed `geography.json` document.
#[derive(Debug, PartialEq)]
pub struct GeographyCollection {
    pub fips: Vec<GeographyItem>,
}

/// An optional reference date field: absent or null is nothing; a string is
/// accepted exactly when it denotes a date.
pub open spec fn spec_decode_date_field(v: Option<JsonValue>) -> Result<Option<CalendarDate>, ()> {
    match v {
        None => Ok(None),
        Some(JsonValue::Null) => Ok(None),
        Some(JsonValue::Str(s)) => match spec_parse_date(s@) {
            Some(d) => Ok(Some(d)),
            None => Err(()),
        },
        _ => Err(()),
    }
}

/// An optional wildcard field: an absent field is nothing; an array of
/// strings is itself; the boolean `false` is an empty sequence; the boolean
/// `true` and every other shape, null included, are refused.
pub open spec fn spec_decode_wildcard(v: Option<JsonValue>) -> Result<Option<Seq<Seq<char>>>, ()> {
    match v {
        None => Ok(None),
        Some(JsonValue::Bool(b)) => if b {
            Err(())
        } else {
            Ok(Some(Seq::empty()))
        },
        Some(JsonValue::Arr(items)) => if all_strings(items@) {
            Ok(Some(string_views(items@)))
        } else {
            Err(())
        },
        _ => Err(()),
    }
}

/// An optional limit field: an absent field is nothing; a native integer in
/// `i32` range is itself; a string is stripped of double quotes at both ends
/// and accepted exactly when the remainder denotes an `i32`; any other
/// shape, null included, is refused.
pub open spec fn spec_decode_limit(v: Option<JsonValue>) -> Result<Option<i32>, ()> {
    match v {
        None => Ok(None),
        Some(JsonValue::Int(n)) => if i32::MIN <= n <= i32::MAX {
            Ok(Some(n as i32))
        } else {
            Err(())
        },
        Some(JsonValue::Str(s)) => match spec_parse_i32(trim_all(s@, '"')) {
            Some(l) => Ok(Some(l)),
            None => Err(()),
        },
        _ => Err(()),
    }
}

/// The limit decoder treats a native integer and any string denoting that
/// integer (once double quotes are stripped from its ends) the same: both
/// yield exactly that integer.
pub proof fn lemma_limit_string_int_agree(s: String, n: i64)
    requires
        i32::MIN <= n <= i32::MAX,
        spec_parse_i32(trim_all(s@, '"')) == Some(n as i32),
    ensures
        spec_decode_limit(Some(JsonValue::Str(s))) == spec_decode_limit(Some(JsonValue::Int(n))),
        spec_decode_limit(Some(JsonValue::Int(n))) == Ok::<Option<i32>, ()>(Some(n as i32)),
{
}

/// Decode the `referenceDate` field.
pub fn decode_date_field(v: Option<&JsonValue>, field: &str) -> (r: Result<
    Option<CalendarDate>,
    DecodeError,
>)
    ensures
        (r is Ok) == (spec_decode_date_field(opt_val(v)) is Ok),
        r matches Ok(d) ==> d == spec_decode_date_field(opt_val(v))->Ok_0,
        r matches Err(e) ==> match opt_val(v) {
            Some(JsonValue::Str(s)) => e matches DecodeError::Date(m) && m@ == s@,
            _ => e matches DecodeError::Shape(m) && m@ == field@,
        },
{
    match v {
        None => Ok(None),
        Some(JsonValue::Null) => Ok(None),
        Some(JsonValue::Str(s)) => match parse_date(s.as_str()) {
            Some(d) => Ok(Some(d)),
            None => Err(DecodeError::Date(s.clone())),
        },
        _ => Err(DecodeError::Shape(String::from_str(field))),
    }
}

/// Decode the `wildcard` field.
pub fn decode_wildcard(v: Option<&JsonValue>, field: &str) -> (r: Result<
    Option<Vec<String>>,
    DecodeError,
>)
    ensures
        (r is Ok) == (spec_decode_wildcard(opt_val(v)) is Ok),
        r matches Ok(s) ==> s.deep_view() == spec_decode_wildcard(opt_val(v))->Ok_0,
        r matches Err(e) ==> match opt_val(v) {
            Some(JsonValue::Bool(b)) => b && e matches DecodeError::WildcardTrue,
            _ => e matches DecodeError::Shape(m) && m@ == field@,
        },
{
    match v {
        None => Ok(None),
        Some(JsonValue::Bool(b)) => {
            if *b {
                Err(DecodeError::WildcardTrue)
            } else {
                let empty: Vec<String> = Vec::new();
                proof {
                    assert(empty.deep_view() =~= Seq::<Seq<char>>::empty());
                }
                Ok(Some(empty))
            }
        },
        Some(JsonValue::Arr(_)) => {
            match decode_opt_str_array(v, field) {
                Ok(s) => Ok(s),
                Err(e) => Err(e),
            }
        },
        _ => Err(DecodeError::Shape(String::from_str(field))),
    }
}

/// Decode the `limit` field of a geography entry.
pub fn decode_limit(v: Option<&JsonValue>, field: &str) -> (r: Result<Option<i32>, DecodeError>)
    ensures
        (r is Ok) == (spec_decode_limit(opt_val(v)) is Ok),
        r matches Ok(l) ==> l == spec_decode_limit(opt_val(v))->Ok_0,
        r matches Err(e) ==> match opt_val(v) {
            Some(JsonValue::Str(s)) => e matches DecodeError::Limit(m) && m@ == s@,
            _ => e matches DecodeError::Shape(m) && m@ == field@,
        },
{
    match v {
        None => Ok(None),
        Some(JsonValue::Int(n)) => {
            let n = *n;
            if -0x8000_0000i64 <= n && n <= 0x7fff_ffffi64 {
                Ok(Some(n as i32))
            } else {
                Err(DecodeError::Shape(String::from_str(field)))
            }
        },
        Some(JsonValue::Str(s)) => {
            let cleaned = trim_all_char(s.as_str(), '"');
            match parse_i32(cleaned) {
                Some(l) => Ok(Some(l)),
                None => Err(DecodeError::Limit(s.clone())),
            }
        },
        _ => Err(DecodeError::Shape(String::from_str(field))),
    }
}

/// One entry of the `fips` array, decoded field by field.
pub open spec fn spec_geography_item(j: JsonValue) -> Result<GeographyItemV, ()> {
    match j {
        JsonValue::Obj(entries) => {
            let name = spec_decode_req_str(spec_obj_get(entries@, "name"@));
            let gld = spec_decode_opt_str(spec_obj_get(entries@, "geoLevelDisplay"@));
            let rd = spec_decode_date_field(spec_obj_get(entries@, "referenceDate"@));
            let rq = spec_decode_opt_str_array(spec_obj_get(entries@, "requires"@));
            let wc = spec_decode_wildcard(spec_obj_get(entries@, "wildcard"@));
            let lim = spec_decode_limit(spec_obj_get(entries@, "limit"@));
            let gli = spec_decode_opt_str(spec_obj_get(entries@, "geoLevelId"@));
            let ow = spec_decode_opt_str(spec_obj_get(entries@, "optionalWithWCFor"@));
            if name is Ok && gld is Ok && rd is Ok && rq is Ok && wc is Ok && lim is Ok && gli
                is Ok && ow is Ok {
                Ok(
                    GeographyItemV {
                        id: 0,
                        name: name->Ok_0,
                        geo_level_display: gld->Ok_0,
                        reference_date: rd->Ok_0,
                        requires_list: rq->Ok_0,
                        wildcard: wc->Ok_0,
                        limit: lim->Ok_0,
                        geo_level_id: gli->Ok_0,
                        optional_with_wildcard_for: ow->Ok_0,
                    },
                )
            } else {
                Err(())
            }
        },
        _ => Err(()),
    }
}

/// Decode one entry of the `fips` array.
pub fn decode_geography_item(j: &JsonValue) -> (r: Result<GeographyItem, DecodeError>)
    ensures
        (r is Ok) == (spec_geography_item(*j) is Ok),
        r matches Ok(it) ==> it@ == spec_geography_item(*j)->Ok_0,
{
    match j {
        JsonValue::Obj(entries) => {
            let name = decode_req_str(obj_get(entries, "name"), "name")?;
            let gld = decode_opt_str(obj_get(entries, "geoLevelDisplay"), "geoLevelDisplay")?;
            let rd = decode_date_field(obj_get(entries, "referenceDate"), "referenceDate")?;
            let rq = decode_opt_str_array(obj_get(entries, "requires"), "requires")?;
            let wc = decode_wildcard(obj_get(entries, "wildcard"), "wildcard")?;
            let lim = decode_limit(obj_get(entries, "limit"), "limit")?;
            let gli = decode_opt_str(obj_get(entries, "geoLevelId"), "geoLevelId")?;
            let ow = decode_opt_str(obj_get(entries, "optionalWithWCFor"), "optionalWithWCFor")?;
            Ok(
                GeographyItem {
                    id: 0,
                    name,
                    geo_level_display: gld,
                    reference_date: rd,
                    requires_list: rq,
                    wildcard: wc,
                    limit: lim,
                    geo_level_id: gli,
                    optional_with_wildcard_for: ow,
                },
            )
        },
        _ => Err(DecodeError::Shape(String::from_str("fips"))),
    }
}

/// The entries of the `fips` array from index `i` on, each decoded; the first
/// refused entry refuses the whole array.
pub open spec fn geo_items_from(items: Seq<JsonValue>, i: int) -> Result<Seq<GeographyItemV>, ()>
    decreases items.len() - i,
{
    if i < 0 || i >= items.len() {
        Ok(Seq::empty())
    } else {
        let hd = spec_geography_item(items[i]);
        let tl = geo_items_from(items, i + 1);
        if hd is Ok && tl is Ok {
            Ok(seq![hd->Ok_0] + tl->Ok_0)
        } else {
            Err(())
        }
    }
}

/// A whole `geography.json` document: an object whose `fips` array holds the
/// geography entries; a missing `fips` key is an empty collection, not an
/// error.
pub open spec fn spec_parse_geography(j: JsonValue) -> Result<Seq<GeographyItemV>, ()> {
    match j {
        JsonValue::Obj(entries) => match spec_obj_get(entries@, "fips"@) {
            None => Ok(Seq::empty()),
            Some(JsonValue::Arr(items)) => geo_items_from(items@, 0),
            Some(_) => Err(()),
        },
        _ => Err(()),
    }
}

/// Decode a whole `geography.json` document given as a JSON value.
#[verifier::loop_isolation(false)]
pub fn parse_geography_value(j: &JsonValue) -> (r: Result<GeographyCollection, DecodeError>)
    ensures
        (r is Ok) == (spec_parse_geography(*j) is Ok),
        r matches Ok(c) ==> c.fips.deep_view() == spec_parse_geography(*j)->Ok_0,
{
    match j {
        JsonValue::Obj(entries) => {
            match obj_get(entries, "fips") {
                None => Ok(GeographyCollection { fips: Vec::new() }),
                Some(JsonValue::Arr(items)) => {
                    let mut fips: Vec<GeographyItem> = Vec::new();
                    let mut i: usize = 0;
                    while i < items.len()
                        invariant
                            0 <= i <= items@.len(),
                            geo_items_from(items@, 0) == (match geo_items_from(
                                items@,
                                i as int,
                            ) {
                                Ok(rest) => Ok(fips.deep_view() + rest),
                                Err(e) => Err(e),
                            }),
                        decreases items@.len() - i,
                    {
                        match decode_geography_item(&items[i]) {
                            Ok(it) => {
                                let ghost old_fips = fips.deep_view();
                                fips.push(it);
                                proof {
                                    assert(fips.deep_view() =~= old_fips.push(it@));
                                    if geo_items_from(items@, i as int + 1) is Ok {
                                        assert(old_fips + geo_items_from(
                                            items@,
                                            i as int,
                                        )->Ok_0 =~= fips.deep_view() + geo_items_from(
                                            items@,
                                            i as int + 1,
                                        )->Ok_0);
                                    }
                                }
                            },
                            Err(e) => {
                                return Err(e);
                            },
                        }
                        i += 1;
                    }
                    proof {
                        assert(fips.deep_view() + geo_items_from(items@, items@.len() as int)->Ok_0
                            =~= fips.deep_view());
                    }
                    Ok(GeographyCollection { fips })
                },
                Some(_) => Err(DecodeError::Shape(String::from_str("fips"))),
            }
        },
        _ => Err(DecodeError::Shape(String::from_str("fips"))),
    }
}

/// Parse a `geography.json` document from its raw text: the records that
/// `spec_parse_geography` gives for the JSON decoding of this text, exactly
/// when the text is well-formed JSON of the accepted shape.
pub fn parse_geography(text: &str) -> (r: Result<GeographyCollection, DecodeError>)
    ensures
        (r is Ok) == (json_doc_of(text@) is Ok && spec_parse_geography(
            json_doc_of(text@)->Ok_0,
        ) is Ok),
        r matches Ok(c) ==> c.fips.deep_view() == spec_parse_geography(
            json_doc_of(text@)->Ok_0,
        )->Ok_0,
        json_doc_of(text@) is Err ==> (r matches Err(e) && e matches DecodeError::Json(m) && m@
            == json_doc_of(text@)->Err_0),
{
    let j = parse_json(text)?;
    let c = parse_geography_value(&j)?;
    Ok(c)
}

} // verus!
