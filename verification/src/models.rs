use crate::json::{
    decode_opt_i32, decode_req_nullable_str_array, decode_req_str, json_doc_of, obj_get,
    parse_json,
    spec_decode_opt_i32, spec_decode_req_nullable_str_array, spec_decode_req_str, spec_obj_get,
    DecodeError, JsonValue,
};
use vstd::prelude::*;

verus! {

/// The metadata of one US Census API endpoint, as one element of the
/// catalog's `dataset` list.
#[derive(Debug, PartialEq)]
pub struct ApiPaths {
    /// Identity assigned by the store; the foreign-key anchor for variable
    /// and geography associations.
    pub id: i32,
    pub c_vintage: Option<i32>,
    pub c_dataset: Vec<Option<String>>,
    pub c_geography_link: String,
    pub c_variables_link: String,
    pub title: String,
    pub description: String,
}

/// The top-level shape of the catalog document: its `dataset` list.
#[derive(Debug, PartialEq)]
pub struct UsCensusApisResponse {
    pub dataset: Vec<ApiPaths>,
}

/// The mathematical shape of an `ApiPaths` entry.
#[verifier::ext_equal]
pub struct ApiPathsV {
    pub id: int,
    pub c_vintage: Option<i32>,
    pub c_dataset: Seq<Option<Seq<char>>>,
    pub c_geography_link: Seq<char>,
    pub c_variables_link: Seq<char>,
    pub title: Seq<char>,
    pub description: Seq<char>,
}

impl View for ApiPaths {
    type V = ApiPathsV;

    open spec fn view(&self) -> ApiPathsV {
        ApiPathsV {
            id: self.id as int,
            c_vintage: self.c_vintage,
            c_dataset: self.c_dataset.deep_view(),
            c_geography_link: self.c_geography_link@,
            c_variables_link: self.c_variables_link@,
            title: self.title@,
            description: self.description@,
        }
    }
}

impl DeepView for ApiPaths {
    type V = ApiPathsV;

    open spec fn deep_view(&self) -> ApiPathsV {
        self.view()
    }
}

/// One catalog entry, decoded field by field: the two document links, the
/// title and the description are required strings, the vintage an optional
/// integer, the dataset path a required array of strings or nulls.
pub open spec fn spec_api_paths_item(j: JsonValue) -> Result<ApiPathsV, ()> {
    match j {
        JsonValue::Obj(entries) => {
            let vintage = spec_decode_opt_i32(spec_obj_get(entries@, "c_vintage"@));
            let dataset = spec_decode_req_nullable_str_array(
                spec_obj_get(entries@, "c_dataset"@),
            );
            let geo = spec_decode_req_str(spec_obj_get(entries@, "c_geographyLink"@));
            let vars = spec_decode_req_str(spec_obj_get(entries@, "c_variablesLink"@));
            let title = spec_decode_req_str(spec_obj_get(entries@, "title"@));
            let descr = spec_decode_req_str(spec_obj_get(entries@, "description"@));
            if vintage is Ok && dataset is Ok && geo is Ok && vars is Ok && title is Ok && descr
                is Ok {
                Ok(
                    ApiPathsV {
                        id: 0,
                        c_vintage: vintage->Ok_0,
                        c_dataset: dataset->Ok_0,
                        c_geography_link: geo->Ok_0,
                        c_variables_link: vars->Ok_0,
                        title: title->Ok_0,
                        description: descr->Ok_0,
                    },
                )
            } else {
                Err(())
            }
        },
        _ => Err(()),
    }
}

/// Decode one catalog entry.
pub fn decode_api_paths_item(j: &JsonValue) -> (r: Result<ApiPaths, DecodeError>)
    ensures
        (r is Ok) == (spec_api_paths_item(*j) is Ok),
        r matches Ok(it) ==> it@ == spec_api_paths_item(*j)->Ok_0,
{
    match j {
        JsonValue::Obj(entries) => {
            let vintage = decode_opt_i32(obj_get(entries, "c_vintage"), "c_vintage")?;
            let dataset = decode_req_nullable_str_array(
                obj_get(entries, "c_dataset"),
                "c_dataset",
            )?;
            let geo = decode_req_str(obj_get(entries, "c_geographyLink"), "c_geographyLink")?;
            let vars = decode_req_str(obj_get(entries, "c_variablesLink"), "c_variablesLink")?;
            let title = decode_req_str(obj_get(entries, "title"), "title")?;
            let descr = decode_req_str(obj_get(entries, "description"), "description")?;
            Ok(
                ApiPaths {
                    id: 0,
                    c_vintage: vintage,
                    c_dataset: dataset,
                    c_geography_link: geo,
                    c_variables_link: vars,
                    title,
                    description: descr,
                },
            )
        },
        _ => Err(DecodeError::Shape(String::from_str("dataset"))),
    }
}

/// The entries of the `dataset` list from index `i` on, each decoded; the
/// first refused entry refuses the whole list.
pub open spec fn api_paths_items_from(items: Seq<JsonValue>, i: int) -> Result<Seq<ApiPathsV>, ()>
    decreases items.len() - i,
{
    if i < 0 || i >= items.len() {
        Ok(Seq::empty())
    } else {
        let hd = spec_api_paths_item(items[i]);
        let tl = api_paths_items_from(items, i + 1);
        if hd is Ok && tl is Ok {
            Ok(seq![hd->Ok_0] + tl->Ok_0)
        } else {
            Err(())
        }
    }
}

/// A whole catalog document: an object whose `dataset` list holds the
/// endpoint descriptors.
pub open spec fn spec_parse_api_paths(j: JsonValue) -> Result<Seq<ApiPathsV>, ()> {
    match j {
        JsonValue::Obj(entries) => match spec_obj_get(entries@, "dataset"@) {
            Some(JsonValue::Arr(items)) => api_paths_items_from(items@, 0),
            _ => Err(()),
        },
        _ => Err(()),
    }
}

/// Decode a whole catalog document given as a JSON value.
#[verifier::loop_isolation(false)]
pub fn parse_api_paths_value(j: &JsonValue) -> (r: Result<UsCensusApisResponse, DecodeError>)
    ensures
        (r is Ok) == (spec_parse_api_paths(*j) is Ok),
        r matches Ok(c) ==> c.dataset.deep_view() == spec_parse_api_paths(*j)->Ok_0,
{
    match j {
        JsonValue::Obj(entries) => {
            match obj_get(entries, "dataset") {
                Some(JsonValue::Arr(items)) => {
                    let mut dataset: Vec<ApiPaths> = Vec::new();
                    let mut i: usize = 0;
                    while i < items.len()
                        invariant
                            0 <= i <= items@.len(),
                            api_paths_items_from(items@, 0) == (match api_paths_items_from(
                                items@,
                                i as int,
                            ) {
                                Ok(rest) => Ok(dataset.deep_view() + rest),
                                Err(e) => Err(e),
                            }),
                        decreases items@.len() - i,
                    {
                        match decode_api_paths_item(&items[i]) {
                            Ok(it) => {
                                let ghost old_ds = dataset.deep_view();
                                dataset.push(it);
                                proof {
                                    assert(dataset.deep_view() =~= old_ds.push(it@));
                                    if api_paths_items_from(items@, i as int + 1) is Ok {
                                        assert(old_ds + api_paths_items_from(
                                            items@,
                                            i as int,
                                        )->Ok_0 =~= dataset.deep_view() + api_paths_items_from(
                                            items@,
                                            i as int + 1,
                                        )->Ok_0);
                                    }
                                }
                            },
                            Err(e) => {
                                return Err(e);
                            },
                        }
                        i += 1;
                    }
                    proof {
                        assert(dataset.deep_view() + api_paths_items_from(
                            items@,
                            items@.len() as int,
                        )->Ok_0 =~= dataset.deep_view());
                    }
                    Ok(UsCensusApisResponse { dataset })
                },
                _ => Err(DecodeError::Shape(String::from_str("dataset"))),
            }
        },
        _ => Err(DecodeError::Shape(String::from_str("dataset"))),
    }
}

/// Parse a catalog (`data.json`) document from its raw text: the entries
/// that `spec_parse_api_paths` gives for the JSON decoding of this text,
/// exactly when the text is well-formed JSON of the accepted shape.
pub fn parse_api_paths(text: &str) -> (r: Result<UsCensusApisResponse, DecodeError>)
    ensures
        (r is Ok) == (json_doc_of(text@) is Ok && spec_parse_api_paths(
            json_doc_of(text@)->Ok_0,
        ) is Ok),
        r matches Ok(c) ==> c.dataset.deep_view() == spec_parse_api_paths(
            json_doc_of(text@)->Ok_0,
        )->Ok_0,
        json_doc_of(text@) is Err ==> (r matches Err(e) && e matches DecodeError::Json(m) && m@
            == json_doc_of(text@)->Err_0),
{
    let j = parse_json(text)?;
    let c = parse_api_paths_value(&j)?;
    Ok(c)
}

/// One many-to-many link between an endpoint and a variable row.
#[derive(Debug, PartialEq, Eq, Structural, Clone, Copy)]
pub struct ApiPathsVariablesAssociation {
    pub id: i32,
    pub api_paths_id: i32,
    pub variables_id: i32,
}

/// One many-to-many link between an endpoint and a geography row.
#[derive(Debug, PartialEq, Eq, Structural, Clone, Copy)]
pub struct ApiPathsGeographyAssociation {
    pub id: i32,
    pub api_paths_id: i32,
    pub geography_id: i32,
}

} // verus!
