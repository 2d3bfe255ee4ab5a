use crate::json::DecodeError;
use crate::fetch_api_metadata::FetchError;
use crate::parse_variables::{VariablesItem, VariablesItemV};
use crate::parse_geography::{GeographyItem, GeographyItemV};
use crate::text::str_eq;
use vstd::prelude::*;
use vstd::string::*;

verus! {

/// A failure of an ingestion run for one endpoint.
#[derive(Debug, PartialEq, Eq)]
pub enum InsertError {
    /// A malformed document URL.
    UrlParse(String),
    /// A storage failure; the whole endpoint's ingestion is rolled back.
    Database(String),
    /// A document that failed to decode.
    Json(DecodeError),
    /// A fetch failure.
    Http(FetchError),
}

/// The relational store as this library models it: the variable and geography
/// rows with their assigned identities, the endpoint association pairs
/// `(api_paths_id, row_id)`, and the next free identity of each row table.
/// The variable table's one uniqueness constraint is on the variable name.
pub struct Store {
    pub variables: Vec<VariablesItem>,
    pub geography: Vec<GeographyItem>,
    pub variable_assocs: Vec<(i32, i32)>,
    pub geography_assocs: Vec<(i32, i32)>,
    pub next_variable_id: i32,
    pub next_geography_id: i32,
}

/// The mathematical shape of the store.
#[verifier::ext_equal]
pub struct StoreV {
    pub variables: Seq<VariablesItemV>,
    pub geography: Seq<GeographyItemV>,
    pub variable_assocs: Seq<(int, int)>,
    pub geography_assocs: Seq<(int, int)>,
    pub next_variable_id: int,
    pub next_geography_id: int,
}

/// Association pairs as mathematical integers.
pub open spec fn pairs_view(a: Seq<(i32, i32)>) -> Seq<(int, int)> {
    a.map_values(|p: (i32, i32)| (p.0 as int, p.1 as int))
}

impl View for Store {
    type V = StoreV;

    open spec fn view(&self) -> StoreV {
        StoreV {
            variables: self.variables.deep_view(),
            geography: self.geography.deep_view(),
            variable_assocs: pairs_view(self.variable_assocs@),
            geography_assocs: pairs_view(self.geography_assocs@),
            next_variable_id: self.next_variable_id as int,
            next_geography_id: self.next_geography_id as int,
        }
    }
}

impl Store {
    /// An empty store: no rows, no associations, identities starting at 1.
    pub fn new() -> (s: Store)
        ensures
            s@.variables == Seq::<VariablesItemV>::empty(),
            s@.geography == Seq::<GeographyItemV>::empty(),
            s@.variable_assocs == Seq::<(int, int)>::empty(),
            s@.geography_assocs == Seq::<(int, int)>::empty(),
            s@.next_variable_id == 1,
            s@.next_geography_id == 1,
            geo_ids_bounded(s@),
    {
        let s = Store {
            variables: Vec::new(),
            geography: Vec::new(),
            variable_assocs: Vec::new(),
            geography_assocs: Vec::new(),
            next_variable_id: 1,
            next_geography_id: 1,
        };
        proof {
            assert(s@.variable_assocs =~= Seq::<(int, int)>::empty());
            assert(s@.geography_assocs =~= Seq::<(int, int)>::empty());
            assert(s@.variables =~= Seq::<VariablesItemV>::empty());
            assert(s@.geography =~= Seq::<GeographyItemV>::empty());
        }
        s
    }
}

/// Index of the variable row named `name`, scanning from `i`; -1 when none.
pub open spec fn find_variable(vars: Seq<VariablesItemV>, name: Seq<char>, i: int) -> int
    decreases vars.len() - i,
{
    if i < 0 || i >= vars.len() {
        -1
    } else if vars[i].name == name {
        i
    } else {
        find_variable(vars, name, i + 1)
    }
}

/// Whether the association pair `(e, v)` is present, scanning from `i`.
pub open spec fn pair_present(assocs: Seq<(int, int)>, e: int, v: int, i: int) -> bool
    decreases assocs.len() - i,
{
    if i < 0 || i >= assocs.len() {
        false
    } else if assocs[i].0 == e && assocs[i].1 == v {
        true
    } else {
        pair_present(assocs, e, v, i + 1)
    }
}

/// `item` with its identity set to `id`.
pub open spec fn with_variable_id(item: VariablesItemV, id: int) -> VariablesItemV {
    VariablesItemV {
        id: id,
        name: item.name,
        label: item.label,
        concept: item.concept,
        required: item.required,
        predicate_type: item.predicate_type,
        group: item.group,
        limit: item.limit,
        predicate_only: item.predicate_only,
        attributes: item.attributes,
    }
}

/// Upsert one variable record for endpoint `e`: a stored row with the same
/// name keeps its content and identity, a new name gets a fresh row; then the
/// association `(e, id)` is inserted unless already present.
pub open spec fn spec_upsert_link_variable(s: StoreV, e: int, item: VariablesItemV) -> StoreV {
    let k = find_variable(s.variables, item.name, 0);
    let id = if k >= 0 {
        s.variables[k].id
    } else {
        s.next_variable_id
    };
    let s1 = if k >= 0 {
        s
    } else {
        StoreV {
            variables: s.variables.push(with_variable_id(item, s.next_variable_id)),
            next_variable_id: s.next_variable_id + 1,
            geography: s.geography,
            variable_assocs: s.variable_assocs,
            geography_assocs: s.geography_assocs,
            next_geography_id: s.next_geography_id,
        }
    };
    if pair_present(s1.variable_assocs, e, id, 0) {
        s1
    } else {
        StoreV {
            variable_assocs: s1.variable_assocs.push((e, id)),
            variables: s1.variables,
            geography: s1.geography,
            geography_assocs: s1.geography_assocs,
            next_variable_id: s1.next_variable_id,
            next_geography_id: s1.next_geography_id,
        }
    }
}

/// Upsert the records `items[i..end]` in order for endpoint `e`.
pub open spec fn spec_insert_variables(
    s: StoreV,
    e: int,
    items: Seq<VariablesItemV>,
    i: int,
    end: int,
) -> StoreV
    decreases end - i,
{
    if i < 0 || i >= end || i >= items.len() {
        s
    } else {
        spec_insert_variables(spec_upsert_link_variable(s, e, items[i]), e, items, i + 1, end)
    }
}

/// Copy a vector of strings.
#[verifier::loop_isolation(false)]
fn clone_string_vec(v: &Vec<String>) -> (r: Vec<String>)
    ensures
        r.deep_view() == v.deep_view(),
{
    let mut out: Vec<String> = Vec::new();
    let mut i: usize = 0;
    while i < v.len()
        invariant
            0 <= i <= v@.len(),
            out.deep_view() == v.deep_view().subrange(0, i as int),
        decreases v@.len() - i,
    {
        let ghost old_out = out.deep_view();
        out.push(v[i].clone());
        proof {
            assert(out.deep_view() =~= old_out.push(v@[i as int]@));
            assert(v.deep_view().subrange(0, i as int + 1) =~= v.deep_view().subrange(
                0,
                i as int,
            ).push(v@[i as int]@));
        }
        i += 1;
    }
    proof {
        assert(v.deep_view().subrange(0, v@.len() as int) =~= v.deep_view());
    }
    out
}

/// Copy an optional string.
fn clone_opt_string(v: &Option<String>) -> (r: Option<String>)
    ensures
        r.deep_view() == v.deep_view(),
{
    match v {
        None => None,
        Some(s) => Some(s.clone()),
    }
}

/// Copy an optional vector of strings.
fn clone_opt_string_vec(v: &Option<Vec<String>>) -> (r: Option<Vec<String>>)
    ensures
        r.deep_view() == v.deep_view(),
{
    match v {
        None => None,
        Some(s) => Some(clone_string_vec(s)),
    }
}

/// Copy a variable record, setting its identity to `id`.
fn clone_variables_item(it: &VariablesItem, id: i32) -> (r: VariablesItem)
    ensures
        r@ == with_variable_id(it@, id as int),
{
    let r = VariablesItem {
        id,
        name: it.name.clone(),
        label: clone_string_vec(&it.label),
        concept: clone_opt_string(&it.concept),
        required: clone_opt_string(&it.required),
        predicate_type: clone_opt_string(&it.predicate_type),
        group: clone_opt_string_vec(&it.group),
        limit: it.limit,
        predicate_only: it.predicate_only,
        attributes: clone_opt_string_vec(&it.attributes),
    };
    r
}

/// Index of the stored variable named `name`, or nothing.
#[verifier::loop_isolation(false)]
fn find_variable_index(vars: &Vec<VariablesItem>, name: &str) -> (r: Option<usize>)
    ensures
        match r {
            Some(k) => k < vars@.len() && find_variable(vars.deep_view(), name@, 0) == k as int,
            None => find_variable(vars.deep_view(), name@, 0) == -1,
        },
{
    let ghost dv = vars.deep_view();
    let mut i: usize = 0;
    while i < vars.len()
        invariant
            0 <= i <= vars@.len(),
            dv == vars.deep_view(),
            find_variable(dv, name@, 0) == find_variable(dv, name@, i as int),
        decreases vars@.len() - i,
    {
        proof {
            assert(dv[i as int] == vars@[i as int]@);
        }
        if str_eq(vars[i].name.as_str(), name) {
            return Some(i);
        }
        i += 1;
    }
    None
}

/// Whether the association pair `(e, v)` is stored.
#[verifier::loop_isolation(false)]
fn assoc_present(assocs: &Vec<(i32, i32)>, e: i32, v: i32) -> (r: bool)
    ensures
        r == pair_present(pairs_view(assocs@), e as int, v as int, 0),
{
    let ghost pv = pairs_view(assocs@);
    let mut i: usize = 0;
    while i < assocs.len()
        invariant
            0 <= i <= assocs@.len(),
            pv == pairs_view(assocs@),
            pair_present(pv, e as int, v as int, 0) == pair_present(pv, e as int, v as int, i as int),
        decreases assocs@.len() - i,
    {
        proof {
            assert(pv[i as int] == (assocs@[i as int].0 as int, assocs@[i as int].1 as int));
        }
        let a = assocs[i];
        if a.0 == e && a.1 == v {
            return true;
        }
        i += 1;
    }
    false
}

/// Upsert the variable records `items[start..end]` for endpoint
/// `api_path_id`, in one batch, and insert the endpoint associations of all
/// of them; existing rows keep their identity and content, and an
/// association already present is not duplicated. The store named by
/// `unique_key_constraint` enforces uniqueness of the variable name, which
/// is what the model's lookup goes by. Fails, leaving the store untouched,
/// exactly when the batch could outrun the identity space.
#[verifier::loop_isolation(false)]
pub fn insert_variables(
    items: &Vec<VariablesItem>,
    start: usize,
    end: usize,
    store: &mut Store,
    api_path_id: i32,
    unique_key_constraint: &str,
) -> (r: Result<(), InsertError>)
    requires
        start <= end <= items@.len(),
    ensures
        (r is Err) == (old(store)@.next_variable_id + (end - start) > i32::MAX),
        r is Err ==> *final(store) == *old(store) && (r matches Err(e) && e is Database),
        r is Ok ==> final(store)@ == spec_insert_variables(
            old(store)@,
            api_path_id as int,
            items.deep_view(),
            start as int,
            end as int,
        ),
{
    let count = end - start;
    let room = (0x7fff_ffffi64 - (store.next_variable_id as i64)) as usize;
    if count > room {
        return Err(
            InsertError::Database(String::from_str("variable identity space exhausted")),
        );
    }
    let ghost itemsv = items.deep_view();
    let ghost e = api_path_id as int;
    let ghost target = spec_insert_variables(old(store)@, e, itemsv, start as int, end as int);
    let mut i: usize = start;
    while i < end
        invariant
            start <= i <= end <= items@.len(),
            itemsv == items.deep_view(),
            target == spec_insert_variables(store@, e, itemsv, i as int, end as int),
            store@.next_variable_id <= old(store)@.next_variable_id + (i - start),
            old(store)@.next_variable_id + (end - start) <= i32::MAX,
        decreases end - i,
    {
        let ghost s0 = store@;
        proof {
            assert(itemsv[i as int] == items@[i as int]@);
        }
        let item = &items[i];
        let found = find_variable_index(&store.variables, item.name.as_str());
        let id = match found {
            Some(k) => store.variables[k].id,
            None => {
                let id = store.next_variable_id;
                let row = clone_variables_item(item, id);
                let ghost old_vars = store@.variables;
                store.variables.push(row);
                store.next_variable_id = id + 1;
                proof {
                    assert(store@.variables =~= old_vars.push(with_variable_id(
                        itemsv[i as int],
                        s0.next_variable_id,
                    )));
                }
                id
            },
        };
        let ghost s1 = store@;
        if !assoc_present(&store.variable_assocs, api_path_id, id) {
            let ghost old_assocs = store@.variable_assocs;
            store.variable_assocs.push((api_path_id, id));
            proof {
                assert(store@.variable_assocs =~= old_assocs.push((e, id as int)));
            }
        }
        proof {
            assert(store@ =~= spec_upsert_link_variable(s0, e, itemsv[i as int]));
        }
        i += 1;
    }
    Ok(())
}

/// The association pairs not belonging to endpoint `e`, from index `i` on.
pub open spec fn kept_assocs_from(assocs: Seq<(int, int)>, e: int, i: int) -> Seq<(int, int)>
    decreases assocs.len() - i,
{
    if i < 0 || i >= assocs.len() {
        Seq::empty()
    } else if assocs[i].0 == e {
        kept_assocs_from(assocs, e, i + 1)
    } else {
        seq![assocs[i]] + kept_assocs_from(assocs, e, i + 1)
    }
}

/// The geography rows not referenced by an association of endpoint `e`, from
/// index `i` on.
pub open spec fn kept_geo_from(
    geo: Seq<GeographyItemV>,
    assocs: Seq<(int, int)>,
    e: int,
    i: int,
) -> Seq<GeographyItemV>
    decreases geo.len() - i,
{
    if i < 0 || i >= geo.len() {
        Seq::empty()
    } else if pair_present(assocs, e, geo[i].id, 0) {
        kept_geo_from(geo, assocs, e, i + 1)
    } else {
        seq![geo[i]] + kept_geo_from(geo, assocs, e, i + 1)
    }
}

/// Remove endpoint `e`'s geography associations and the geography rows they
/// reference; geography rows are endpoint-specific, so nothing else can
/// reference them.
pub open spec fn spec_delete_geography(s: StoreV, e: int) -> StoreV {
    StoreV {
        geography: kept_geo_from(s.geography, s.geography_assocs, e, 0),
        geography_assocs: kept_assocs_from(s.geography_assocs, e, 0),
        variables: s.variables,
        variable_assocs: s.variable_assocs,
        next_variable_id: s.next_variable_id,
        next_geography_id: s.next_geography_id,
    }
}

/// `g` with its identity set to `id`.
pub open spec fn with_geography_id(g: GeographyItemV, id: int) -> GeographyItemV {
    GeographyItemV {
        id: id,
        name: g.name,
        geo_level_display: g.geo_level_display,
        reference_date: g.reference_date,
        requires_list: g.requires_list,
        wildcard: g.wildcard,
        limit: g.limit,
        geo_level_id: g.geo_level_id,
        optional_with_wildcard_for: g.optional_with_wildcard_for,
    }
}

/// Insert the records `items[i..end]` as fresh geography rows of endpoint
/// `e`, each with a fresh identity and an unconditional association.
pub open spec fn spec_insert_geographies(
    s: StoreV,
    e: int,
    items: Seq<GeographyItemV>,
    i: int,
    end: int,
) -> StoreV
    decreases end - i,
{
    if i < 0 || i >= end || i >= items.len() {
        s
    } else {
        let s1 = StoreV {
            geography: s.geography.push(with_geography_id(items[i], s.next_geography_id)),
            geography_assocs: s.geography_assocs.push((e, s.next_geography_id)),
            next_geography_id: s.next_geography_id + 1,
            variables: s.variables,
            variable_assocs: s.variable_assocs,
            next_variable_id: s.next_variable_id,
        };
        spec_insert_geographies(s1, e, items, i + 1, end)
    }
}

/// Copy a geography record, setting its identity to `id`.
fn clone_geography_item(it: &GeographyItem, id: i32) -> (r: GeographyItem)
    ensures
        r@ == with_geography_id(it@, id as int),
{
    let r = GeographyItem {
        id,
        name: it.name.clone(),
        geo_level_display: clone_opt_string(&it.geo_level_display),
        reference_date: it.reference_date,
        requires_list: clone_opt_string_vec(&it.requires_list),
        wildcard: clone_opt_string_vec(&it.wildcard),
        limit: it.limit,
        geo_level_id: clone_opt_string(&it.geo_level_id),
        optional_with_wildcard_for: clone_opt_string(&it.optional_with_wildcard_for),
    };
    proof {
        assert(r@ =~= with_geography_id(it@, id as int));
    }
    r
}

/// Delete endpoint `api_path_id`'s geography associations, then the now
/// unreferenced geography rows themselves; every run replaces an endpoint's
/// geography wholesale, so its old rows never survive a new ingestion.
#[verifier::loop_isolation(false)]
pub fn delete_endpoint_geography(store: &mut Store, api_path_id: i32)
    ensures
        final(store)@ == spec_delete_geography(old(store)@, api_path_id as int),
{
    let ghost e = api_path_id as int;
    let ghost old_assocs = store@.geography_assocs;
    let ghost old_geo = store@.geography;
    let mut kept: Vec<(i32, i32)> = Vec::new();
    let mut i: usize = 0;
    while i < store.geography_assocs.len()
        invariant
            0 <= i <= store.geography_assocs@.len(),
            store@ == old(store)@,
            kept_assocs_from(old_assocs, e, 0) == pairs_view(kept@) + kept_assocs_from(
                old_assocs,
                e,
                i as int,
            ),
        decreases store.geography_assocs@.len() - i,
    {
        let a = store.geography_assocs[i];
        proof {
            assert(old_assocs[i as int] == (a.0 as int, a.1 as int));
        }
        if a.0 != api_path_id {
            let ghost old_kept = pairs_view(kept@);
            kept.push(a);
            proof {
                assert(pairs_view(kept@) =~= old_kept.push((a.0 as int, a.1 as int)));
                assert(old_kept.push((a.0 as int, a.1 as int)) + kept_assocs_from(
                    old_assocs,
                    e,
                    i as int + 1,
                ) =~= old_kept + kept_assocs_from(old_assocs, e, i as int));
            }
        }
        i += 1;
    }
    proof {
        assert(pairs_view(kept@) + kept_assocs_from(old_assocs, e, old_assocs.len() as int)
            =~= pairs_view(kept@));
    }
    let mut kept_rows: Vec<GeographyItem> = Vec::new();
    let mut j: usize = 0;
    while j < store.geography.len()
        invariant
            0 <= j <= store.geography@.len(),
            store@ == old(store)@,
            kept_geo_from(old_geo, old_assocs, e, 0) == kept_rows.deep_view() + kept_geo_from(
                old_geo,
                old_assocs,
                e,
                j as int,
            ),
        decreases store.geography@.len() - j,
    {
        proof {
            assert(old_geo[j as int] == store.geography@[j as int]@);
        }
        let gid = store.geography[j].id;
        if !assoc_present(&store.geography_assocs, api_path_id, gid) {
            let ghost old_rows = kept_rows.deep_view();
            let row = clone_geography_item(&store.geography[j], gid);
            proof {
                assert(row@ =~= old_geo[j as int]);
            }
            kept_rows.push(row);
            proof {
                assert(kept_rows.deep_view() =~= old_rows.push(old_geo[j as int]));
                assert(old_rows.push(old_geo[j as int]) + kept_geo_from(
                    old_geo,
                    old_assocs,
                    e,
                    j as int + 1,
                ) =~= old_rows + kept_geo_from(old_geo, old_assocs, e, j as int));
            }
        }
        j += 1;
    }
    proof {
        assert(kept_rows.deep_view() + kept_geo_from(old_geo, old_assocs, e, old_geo.len() as int)
            =~= kept_rows.deep_view());
    }
    store.geography_assocs = kept;
    store.geography = kept_rows;
    proof {
        assert(store@ =~= spec_delete_geography(old(store)@, e));
    }
}

/// Insert the geography records `items[start..end]` for endpoint
/// `api_path_id`, each as a fresh row with a fresh identity, and associate
/// every one of them with the endpoint, unconditionally. Fails, leaving the
/// store untouched, exactly when the batch could outrun the identity space.
#[verifier::loop_isolation(false)]
pub fn insert_geographies(
    items: &Vec<GeographyItem>,
    start: usize,
    end: usize,
    store: &mut Store,
    api_path_id: i32,
) -> (r: Result<(), InsertError>)
    requires
        start <= end <= items@.len(),
    ensures
        (r is Err) == (old(store)@.next_geography_id + (end - start) > i32::MAX),
        r is Err ==> *final(store) == *old(store) && (r matches Err(e) && e is Database),
        r is Ok ==> final(store)@ == spec_insert_geographies(
            old(store)@,
            api_path_id as int,
            items.deep_view(),
            start as int,
            end as int,
        ),
{
    let count = end - start;
    let room = (0x7fff_ffffi64 - (store.next_geography_id as i64)) as usize;
    if count > room {
        return Err(
            InsertError::Database(String::from_str("geography identity space exhausted")),
        );
    }
    let ghost itemsv = items.deep_view();
    let ghost e = api_path_id as int;
    let ghost target = spec_insert_geographies(old(store)@, e, itemsv, start as int, end as int);
    let mut i: usize = start;
    while i < end
        invariant
            start <= i <= end <= items@.len(),
            itemsv == items.deep_view(),
            target == spec_insert_geographies(store@, e, itemsv, i as int, end as int),
            store@.next_geography_id <= old(store)@.next_geography_id + (i - start),
            old(store)@.next_geography_id + (end - start) <= i32::MAX,
        decreases end - i,
    {
        let ghost s0 = store@;
        proof {
            assert(itemsv[i as int] == items@[i as int]@);
        }
        let id = store.next_geography_id;
        let row = clone_geography_item(&items[i], id);
        let ghost old_rows = store@.geography;
        let ghost old_assocs = store@.geography_assocs;
        store.geography.push(row);
        store.geography_assocs.push((api_path_id, id));
        store.next_geography_id = id + 1;
        proof {
            assert(store@.geography =~= old_rows.push(with_geography_id(
                itemsv[i as int],
                s0.next_geography_id,
            )));
            assert(store@.geography_assocs =~= old_assocs.push((e, s0.next_geography_id)));
        }
        i += 1;
    }
    Ok(())
}

/// Upserting `items[a..c]` is upserting `items[a..b]` and then `items[b..c]`:
/// batching leaves the outcome unchanged.
pub proof fn lemma_insert_variables_compose(
    s: StoreV,
    e: int,
    items: Seq<VariablesItemV>,
    a: int,
    b: int,
    c: int,
)
    requires
        0 <= a <= b <= c,
    ensures
        spec_insert_variables(s, e, items, a, c) == spec_insert_variables(
            spec_insert_variables(s, e, items, a, b),
            e,
            items,
            b,
            c,
        ),
    decreases b - a,
{
    if a < b {
        lemma_insert_variables_compose(
            spec_upsert_link_variable(s, e, items[a]),
            e,
            items,
            a + 1,
            b,
            c,
        );
    }
}

/// Inserting geography records `items[a..c]` is inserting `items[a..b]` and
/// then `items[b..c]`: batching leaves the outcome unchanged.
pub proof fn lemma_insert_geographies_compose(
    s: StoreV,
    e: int,
    items: Seq<GeographyItemV>,
    a: int,
    b: int,
    c: int,
)
    requires
        0 <= a <= b <= c,
    ensures
        spec_insert_geographies(s, e, items, a, c) == spec_insert_geographies(
            spec_insert_geographies(s, e, items, a, b),
            e,
            items,
            b,
            c,
        ),
    decreases b - a,
{
    if a < b && a < items.len() {
        let s1 = StoreV {
            geography: s.geography.push(with_geography_id(items[a], s.next_geography_id)),
            geography_assocs: s.geography_assocs.push((e, s.next_geography_id)),
            next_geography_id: s.next_geography_id + 1,
            variables: s.variables,
            variable_assocs: s.variable_assocs,
            next_variable_id: s.next_variable_id,
        };
        lemma_insert_geographies_compose(s1, e, items, a + 1, b, c);
    } else if a < b {
        lemma_insert_geographies_compose(s, e, items, a + 1, b, c);
    }
}

/// One whole ingestion of one endpoint: upsert its variables, then replace
/// its geography rows and associations wholesale.
pub open spec fn spec_ingest(
    s: StoreV,
    e: int,
    vars: Seq<VariablesItemV>,
    geos: Seq<GeographyItemV>,
) -> StoreV {
    let s1 = spec_insert_variables(s, e, vars, 0, vars.len() as int);
    let s2 = spec_delete_geography(s1, e);
    spec_insert_geographies(s2, e, geos, 0, geos.len() as int)
}

/// Ingest one endpoint's parsed documents: upsert its variables in bounded
/// batches (never one unbounded submission), then replace its geography rows
/// wholesale, as one all-or-nothing change. On any failure the store is
/// exactly as it was: nothing is partially committed for an endpoint.
#[verifier::loop_isolation(false)]
pub fn insert_variables_and_geography_for_api_path(
    store: &mut Store,
    api_path_metadata: &crate::models::ApiPaths,
    variables: &crate::parse_variables::VariablesCollection,
    geography: &crate::parse_geography::GeographyCollection,
    variables_unique_key_constraint: &str,
) -> (r: Result<(), InsertError>)
    ensures
        (r is Err) == (old(store)@.next_variable_id + variables.variables@.len() > i32::MAX || old(
            store,
        )@.next_geography_id + geography.fips@.len() > i32::MAX),
        r is Err ==> *final(store) == *old(store) && (r matches Err(e) && e is Database),
        r is Ok ==> final(store)@ == spec_ingest(
            old(store)@,
            api_path_metadata.id as int,
            variables.variables.deep_view(),
            geography.fips.deep_view(),
        ),
{
    let e = api_path_metadata.id;
    // Nothing is changed unless the whole run is known to fit: this stands in
    // for the transaction around the endpoint's ingestion.
    let vroom = (0x7fff_ffffi64 - (store.next_variable_id as i64)) as usize;
    if variables.variables.len() > vroom {
        return Err(
            InsertError::Database(String::from_str("variable identity space exhausted")),
        );
    }
    let groom = (0x7fff_ffffi64 - (store.next_geography_id as i64)) as usize;
    if geography.fips.len() > groom {
        return Err(
            InsertError::Database(String::from_str("geography identity space exhausted")),
        );
    }
    // Bound every batch handed to the store, to respect its ceiling on the
    // number of parameters of one submission.
    let safe_batch_size: usize = 5000;
    let n = variables.variables.len();
    let ghost itemsv = variables.variables.deep_view();
    let ghost ev = e as int;
    let ghost target1 = spec_insert_variables(old(store)@, ev, itemsv, 0, n as int);
    let mut i: usize = 0;
    while i < n
        invariant
            0 <= i <= n,
            n == variables.variables@.len(),
            itemsv == variables.variables.deep_view(),
            target1 == spec_insert_variables(store@, ev, itemsv, i as int, n as int),
            store@.next_variable_id <= old(store)@.next_variable_id + i,
            old(store)@.next_variable_id + n <= i32::MAX,
            store@.next_geography_id == old(store)@.next_geography_id,
        decreases n - i,
    {
        let end = if n - i < safe_batch_size {
            n
        } else {
            i + safe_batch_size
        };
        let ghost s_before = store@;
        match insert_variables(
            &variables.variables,
            i,
            end,
            store,
            e,
            variables_unique_key_constraint,
        ) {
            Ok(_) => {
                proof {
                    lemma_insert_variables_compose(s_before, ev, itemsv, i as int, end as int, n as int);
                    lemma_insert_variables_next_bound(s_before, ev, itemsv, i as int, end as int);
                }
            },
            Err(er) => {
                proof {
                    assert(false);
                }
                return Err(er);
            },
        }
        i = end;
    }
    let ghost s1 = store@;
    proof {
        assert(s1 == target1);
    }
    delete_endpoint_geography(store, e);
    let m = geography.fips.len();
    let ghost geosv = geography.fips.deep_view();
    let ghost s2 = store@;
    let ghost target2 = spec_insert_geographies(s2, ev, geosv, 0, m as int);
    let mut j: usize = 0;
    while j < m
        invariant
            0 <= j <= m,
            m == geography.fips@.len(),
            geosv == geography.fips.deep_view(),
            target2 == spec_insert_geographies(store@, ev, geosv, j as int, m as int),
            store@.next_geography_id <= s2.next_geography_id + j,
            s2.next_geography_id + m <= i32::MAX,
        decreases m - j,
    {
        let end = if m - j < safe_batch_size {
            m
        } else {
            j + safe_batch_size
        };
        let ghost s_before = store@;
        match insert_geographies(&geography.fips, j, end, store, e) {
            Ok(_) => {
                proof {
                    lemma_insert_geographies_compose(
                        s_before,
                        ev,
                        geosv,
                        j as int,
                        end as int,
                        m as int,
                    );
                    lemma_insert_geographies_next_bound(s_before, ev, geosv, j as int, end as int);
                }
            },
            Err(er) => {
                proof {
                    assert(false);
                }
                return Err(er);
            },
        }
        j = end;
    }
    Ok(())
}

/// Upserting a batch raises the next variable identity by at most the batch
/// size.
pub proof fn lemma_insert_variables_next_bound(
    s: StoreV,
    e: int,
    items: Seq<VariablesItemV>,
    i: int,
    end: int,
)
    requires
        0 <= i <= end,
    ensures
        spec_insert_variables(s, e, items, i, end).next_variable_id <= s.next_variable_id + (end
            - i),
        spec_insert_variables(s, e, items, i, end).next_geography_id == s.next_geography_id,
    decreases end - i,
{
    if i < end && i < items.len() {
        lemma_insert_variables_next_bound(
            spec_upsert_link_variable(s, e, items[i]),
            e,
            items,
            i + 1,
            end,
        );
    }
}

/// Inserting a batch of geography records raises the next geography identity
/// by at most the batch size.
pub proof fn lemma_insert_geographies_next_bound(
    s: StoreV,
    e: int,
    items: Seq<GeographyItemV>,
    i: int,
    end: int,
)
    requires
        0 <= i <= end,
    ensures
        spec_insert_geographies(s, e, items, i, end).next_geography_id <= s.next_geography_id + (
        end - i),
    decreases end - i,
{
    if i < end && i < items.len() {
        let s1 = StoreV {
            geography: s.geography.push(with_geography_id(items[i], s.next_geography_id)),
            geography_assocs: s.geography_assocs.push((e, s.next_geography_id)),
            next_geography_id: s.next_geography_id + 1,
            variables: s.variables,
            variable_assocs: s.variable_assocs,
            next_variable_id: s.next_variable_id,
        };
        lemma_insert_geographies_next_bound(s1, e, items, i + 1, end);
    }
}

/// Running one endpoint's whole ingestion twice with the same documents adds
/// nothing beyond the geography replacement itself: the variable rows and
/// their associations stay exactly as after the first run, and the geography
/// rows and associations for the endpoint are exactly the second run's fresh
/// copies, one per record.
pub proof fn lemma_ingest_idempotent(
    s: StoreV,
    e: int,
    vars: Seq<VariablesItemV>,
    geos: Seq<GeographyItemV>,
)
    requires
        geo_ids_bounded(s),
    ensures
        ({
            let sv = spec_insert_variables(s, e, vars, 0, vars.len() as int);
            let d1 = spec_delete_geography(sv, e);
            let s1 = spec_ingest(s, e, vars, geos);
            let s2 = spec_ingest(s1, e, vars, geos);
            &&& s2.variables == s1.variables
            &&& s2.variable_assocs == s1.variable_assocs
            &&& s2.geography == d1.geography + Seq::new(
                geos.len(),
                |k: int| with_geography_id(geos[k], s1.next_geography_id + k),
            )
            &&& s2.geography_assocs == d1.geography_assocs + Seq::new(
                geos.len(),
                |k: int| (e, s1.next_geography_id + k),
            )
        }),
{
    let sv = spec_insert_variables(s, e, vars, 0, vars.len() as int);
    let d1 = spec_delete_geography(sv, e);
    let s1 = spec_ingest(s, e, vars, geos);
    // The first run leaves every variable record represented, and the
    // geography steps touch neither the variable rows nor their pairs, so
    // the second run's variable upsert is a no-op.
    lemma_insert_establishes(s, e, vars, 0, vars.len() as int);
    lemma_insert_geographies_shape(d1, e, geos, 0, geos.len() as int);
    assert forall|j: int| 0 <= j < vars.len() implies variable_linked(
        s1,
        e,
        #[trigger] vars[j],
    ) by {
        assert(s1.variables == sv.variables);
        assert(s1.variable_assocs == sv.variable_assocs);
    }
    lemma_insert_noop_when_linked(s1, e, vars, 0, vars.len() as int);
    // The geography replacement of the second run then removes exactly the
    // first run's rows and inserts fresh ones.
    lemma_insert_variables_keeps_geography(s, e, vars, 0, vars.len() as int);
    lemma_replace_geography_twice(sv, e, geos, geos);
    let d2 = spec_delete_geography(s1, e);
    lemma_insert_geographies_shape(d2, e, geos, 0, geos.len() as int);
}

/// `item` is represented in `s` for endpoint `e`: a row with its name is
/// stored and that row's association with `e` is present.
pub open spec fn variable_linked(s: StoreV, e: int, item: VariablesItemV) -> bool {
    let k = find_variable(s.variables, item.name, 0);
    &&& k >= 0
    &&& pair_present(s.variable_assocs, e, s.variables[k].id, 0)
}

/// What a successful lookup means: the index is in range, its row bears the
/// name, and no earlier row from `i` on does.
proof fn lemma_find_props(vars: Seq<VariablesItemV>, name: Seq<char>, i: int)
    requires
        0 <= i,
    ensures
        find_variable(vars, name, i) != -1 ==> i <= find_variable(vars, name, i) < vars.len()
            && vars[find_variable(vars, name, i)].name == name,
    decreases vars.len() - i,
{
    if i < vars.len() && !(vars[i].name == name) {
        lemma_find_props(vars, name, i + 1);
    }
}

/// Appending a row with the sought name to a store that lacks it makes the
/// lookup find exactly that row.
proof fn lemma_find_push_new(vars: Seq<VariablesItemV>, name: Seq<char>, x: VariablesItemV, i: int)
    requires
        0 <= i <= vars.len(),
        find_variable(vars, name, i) == -1,
        x.name == name,
    ensures
        find_variable(vars.push(x), name, i) == vars.len(),
    decreases vars.len() - i,
{
    if i < vars.len() {
        lemma_find_push_new(vars, name, x, i + 1);
    }
}

/// Appending any row leaves an already successful lookup unchanged.
proof fn lemma_find_push_found(vars: Seq<VariablesItemV>, name: Seq<char>, x: VariablesItemV, i: int)
    requires
        0 <= i,
        find_variable(vars, name, i) != -1,
    ensures
        find_variable(vars.push(x), name, i) == find_variable(vars, name, i),
    decreases vars.len() - i,
{
    if i < vars.len() && !(vars[i].name == name) {
        lemma_find_push_found(vars, name, x, i + 1);
    }
}

/// A present pair stays present when another pair is appended.
proof fn lemma_pair_push(assocs: Seq<(int, int)>, e: int, v: int, x: (int, int), i: int)
    requires
        0 <= i,
        pair_present(assocs, e, v, i),
    ensures
        pair_present(assocs.push(x), e, v, i),
    decreases assocs.len() - i,
{
    if i < assocs.len() && !(assocs[i].0 == e && assocs[i].1 == v) {
        lemma_pair_push(assocs, e, v, x, i + 1);
    }
}

/// The pair just appended is present.
proof fn lemma_pair_push_self(assocs: Seq<(int, int)>, e: int, v: int, i: int)
    requires
        0 <= i <= assocs.len(),
    ensures
        pair_present(assocs.push((e, v)), e, v, i),
    decreases assocs.len() - i,
{
    if i < assocs.len() {
        lemma_pair_push_self(assocs, e, v, i + 1);
    }
}

/// After one upsert, the upserted record is represented for its endpoint.
proof fn lemma_upsert_establishes(s: StoreV, e: int, item: VariablesItemV)
    ensures
        variable_linked(spec_upsert_link_variable(s, e, item), e, item),
{
    let k = find_variable(s.variables, item.name, 0);
    lemma_find_props(s.variables, item.name, 0);
    if k >= 0 {
        let id = s.variables[k].id;
        if !pair_present(s.variable_assocs, e, id, 0) {
            lemma_pair_push_self(s.variable_assocs, e, id, 0);
        }
    } else {
        let x = with_variable_id(item, s.next_variable_id);
        lemma_find_push_new(s.variables, item.name, x, 0);
        let vars1 = s.variables.push(x);
        let id = s.next_variable_id;
        if !pair_present(s.variable_assocs, e, id, 0) {
            lemma_pair_push_self(s.variable_assocs, e, id, 0);
        }
    }
}

/// An upsert of one record preserves the representation of any other.
proof fn lemma_upsert_preserves_linked(s: StoreV, e: int, item: VariablesItemV, other: VariablesItemV)
    requires
        variable_linked(s, e, other),
    ensures
        variable_linked(spec_upsert_link_variable(s, e, item), e, other),
{
    let k0 = find_variable(s.variables, other.name, 0);
    lemma_find_props(s.variables, other.name, 0);
    let k = find_variable(s.variables, item.name, 0);
    let id = if k >= 0 {
        s.variables[k].id
    } else {
        s.next_variable_id
    };
    if k < 0 {
        let x = with_variable_id(item, s.next_variable_id);
        lemma_find_push_found(s.variables, other.name, x, 0);
    }
    let s1 = spec_upsert_link_variable(s, e, item);
    if !pair_present(
        (if k >= 0 {
            s
        } else {
            StoreV {
                variables: s.variables.push(with_variable_id(item, s.next_variable_id)),
                next_variable_id: s.next_variable_id + 1,
                geography: s.geography,
                variable_assocs: s.variable_assocs,
                geography_assocs: s.geography_assocs,
                next_geography_id: s.next_geography_id,
            }
        }).variable_assocs,
        e,
        id,
        0,
    ) {
        lemma_pair_push(s.variable_assocs, e, s.variables[k0].id, (e, id), 0);
    }
}

/// Upserting a record that is already represented changes nothing.
proof fn lemma_upsert_noop(s: StoreV, e: int, item: VariablesItemV)
    requires
        variable_linked(s, e, item),
    ensures
        spec_upsert_link_variable(s, e, item) == s,
{
}

/// Upserting a batch preserves the representation of any record.
proof fn lemma_insert_preserves_linked(
    s: StoreV,
    e: int,
    items: Seq<VariablesItemV>,
    i: int,
    end: int,
    other: VariablesItemV,
)
    requires
        variable_linked(s, e, other),
    ensures
        variable_linked(spec_insert_variables(s, e, items, i, end), e, other),
    decreases end - i,
{
    if 0 <= i && i < end && i < items.len() {
        lemma_upsert_preserves_linked(s, e, items[i], other);
        lemma_insert_preserves_linked(
            spec_upsert_link_variable(s, e, items[i]),
            e,
            items,
            i + 1,
            end,
            other,
        );
    }
}

/// After upserting a batch, every record of the batch is represented.
proof fn lemma_insert_establishes(s: StoreV, e: int, items: Seq<VariablesItemV>, i: int, end: int)
    requires
        0 <= i,
    ensures
        forall|j: int|
            i <= j < end && j < items.len() ==> variable_linked(
                spec_insert_variables(s, e, items, i, end),
                e,
                #[trigger] items[j],
            ),
    decreases end - i,
{
    if 0 <= i && i < end && i < items.len() {
        let s1 = spec_upsert_link_variable(s, e, items[i]);
        lemma_upsert_establishes(s, e, items[i]);
        lemma_insert_preserves_linked(s1, e, items, i + 1, end, items[i]);
        lemma_insert_establishes(s1, e, items, i + 1, end);
    }
}

/// Upserting a batch whose every record is already represented changes
/// nothing.
proof fn lemma_insert_noop_when_linked(
    s: StoreV,
    e: int,
    items: Seq<VariablesItemV>,
    i: int,
    end: int,
)
    requires
        forall|j: int|
            i <= j < end && j < items.len() ==> variable_linked(s, e, #[trigger] items[j]),
    ensures
        spec_insert_variables(s, e, items, i, end) == s,
    decreases end - i,
{
    if 0 <= i && i < end && i < items.len() {
        lemma_upsert_noop(s, e, items[i]);
        lemma_insert_noop_when_linked(s, e, items, i + 1, end);
    }
}

/// Re-running variable ingestion for one endpoint is a no-op: the second run
/// finds every name already stored and every association already present, so
/// in particular no endpoint-variable association row is ever duplicated.
pub proof fn lemma_insert_variables_idempotent(s: StoreV, e: int, items: Seq<VariablesItemV>)
    ensures
        ({
            let s1 = spec_insert_variables(s, e, items, 0, items.len() as int);
            spec_insert_variables(s1, e, items, 0, items.len() as int) == s1
        }),
{
    let s1 = spec_insert_variables(s, e, items, 0, items.len() as int);
    lemma_insert_establishes(s, e, items, 0, items.len() as int);
    lemma_insert_noop_when_linked(s1, e, items, 0, items.len() as int);
}

/// Every stored geography row's identity lies below the next free identity.
pub open spec fn geo_ids_bounded(s: StoreV) -> bool {
    forall|k: int|
        0 <= k < s.geography.len() ==> (#[trigger] s.geography[k]).id < s.next_geography_id
}

/// Upserting variables touches neither the geography rows nor their
/// associations nor the geography identity counter.
proof fn lemma_insert_variables_keeps_geography(
    s: StoreV,
    e: int,
    items: Seq<VariablesItemV>,
    i: int,
    end: int,
)
    ensures
        spec_insert_variables(s, e, items, i, end).geography == s.geography,
        spec_insert_variables(s, e, items, i, end).geography_assocs == s.geography_assocs,
        spec_insert_variables(s, e, items, i, end).next_geography_id == s.next_geography_id,
    decreases end - i,
{
    if 0 <= i && i < end && i < items.len() {
        lemma_insert_variables_keeps_geography(
            spec_upsert_link_variable(s, e, items[i]),
            e,
            items,
            i + 1,
            end,
        );
    }
}

/// A whole ingestion keeps every geography row's identity below the next
/// free one, so the store stays fit for the replacement law.
pub proof fn lemma_ingest_preserves_geo_bound(
    s: StoreV,
    e: int,
    vars: Seq<VariablesItemV>,
    geos: Seq<GeographyItemV>,
)
    requires
        geo_ids_bounded(s),
    ensures
        geo_ids_bounded(spec_ingest(s, e, vars, geos)),
{
    let s1 = spec_insert_variables(s, e, vars, 0, vars.len() as int);
    lemma_insert_variables_keeps_geography(s, e, vars, 0, vars.len() as int);
    let d = spec_delete_geography(s1, e);
    lemma_kept_geo_ids(s1.geography, s1.geography_assocs, e, 0, s1.next_geography_id);
    lemma_insert_geographies_shape(d, e, geos, 0, geos.len() as int);
    let r = spec_ingest(s, e, vars, geos);
    assert forall|k: int| 0 <= k < r.geography.len() implies (#[trigger] r.geography[k]).id
        < r.next_geography_id by {
        if k < d.geography.len() {
            assert(r.geography[k] == d.geography[k]);
        } else {
            assert(r.geography[k] == with_geography_id(
                geos[k - d.geography.len()],
                d.next_geography_id + (k - d.geography.len()),
            ));
        }
    }
}

/// A pair is present exactly when some index at or after `i` holds it.
proof fn lemma_pair_present_exists(assocs: Seq<(int, int)>, e: int, v: int, i: int)
    requires
        0 <= i,
    ensures
        pair_present(assocs, e, v, i) <==> exists|k: int|
            i <= k < assocs.len() && (#[trigger] assocs[k]).0 == e && assocs[k].1 == v,
    decreases assocs.len() - i,
{
    if i < assocs.len() {
        lemma_pair_present_exists(assocs, e, v, i + 1);
    }
}

/// What one batch insert of geography records does, spelled out: the fresh
/// rows and the fresh associations are appended in order, with consecutive
/// identities, and nothing else moves.
proof fn lemma_insert_geographies_shape(
    s: StoreV,
    e: int,
    items: Seq<GeographyItemV>,
    i: int,
    end: int,
)
    requires
        0 <= i <= end <= items.len(),
    ensures
        ({
            let r = spec_insert_geographies(s, e, items, i, end);
            &&& r.geography == s.geography + Seq::new(
                (end - i) as nat,
                |k: int| with_geography_id(items[i + k], s.next_geography_id + k),
            )
            &&& r.geography_assocs == s.geography_assocs + Seq::new(
                (end - i) as nat,
                |k: int| (e, s.next_geography_id + k),
            )
            &&& r.next_geography_id == s.next_geography_id + (end - i)
            &&& r.variables == s.variables
            &&& r.variable_assocs == s.variable_assocs
            &&& r.next_variable_id == s.next_variable_id
        }),
    decreases end - i,
{
    if i < end {
        let s1 = StoreV {
            geography: s.geography.push(with_geography_id(items[i], s.next_geography_id)),
            geography_assocs: s.geography_assocs.push((e, s.next_geography_id)),
            next_geography_id: s.next_geography_id + 1,
            variables: s.variables,
            variable_assocs: s.variable_assocs,
            next_variable_id: s.next_variable_id,
        };
        lemma_insert_geographies_shape(s1, e, items, i + 1, end);
        assert(s1.geography + Seq::new(
            (end - i - 1) as nat,
            |k: int| with_geography_id(items[i + 1 + k], s1.next_geography_id + k),
        ) =~= s.geography + Seq::new(
            (end - i) as nat,
            |k: int| with_geography_id(items[i + k], s.next_geography_id + k),
        ));
        assert(s1.geography_assocs + Seq::new(
            (end - i - 1) as nat,
            |k: int| (e, s1.next_geography_id + k),
        ) =~= s.geography_assocs + Seq::new((end - i) as nat, |k: int| (e, s.next_geography_id + k)));
    } else {
        assert(s.geography + Seq::new(0, |k: int| with_geography_id(items[i + k], s.next_geography_id + k))
            =~= s.geography);
        assert(s.geography_assocs + Seq::new(0, |k: int| (e, s.next_geography_id + k))
            =~= s.geography_assocs);
    }
}

/// Filtering a concatenation from beyond the first part is filtering the
/// second part.
proof fn lemma_kept_assocs_shift(a: Seq<(int, int)>, b: Seq<(int, int)>, e: int, k: int)
    requires
        0 <= k <= b.len(),
    ensures
        kept_assocs_from(a + b, e, a.len() + k) == kept_assocs_from(b, e, k),
    decreases b.len() - k,
{
    if k < b.len() {
        lemma_kept_assocs_shift(a, b, e, k + 1);
        assert((a + b)[a.len() + k] == b[k]);
    }
}

/// Filtering a concatenation filters each part.
proof fn lemma_kept_assocs_concat(a: Seq<(int, int)>, b: Seq<(int, int)>, e: int, i: int)
    requires
        0 <= i <= a.len(),
    ensures
        kept_assocs_from(a + b, e, i) == kept_assocs_from(a, e, i) + kept_assocs_from(b, e, 0),
    decreases a.len() - i,
{
    if i < a.len() {
        lemma_kept_assocs_concat(a, b, e, i + 1);
        assert((a + b)[i] == a[i]);
        if !(a[i].0 == e) {
            assert(seq![a[i]] + (kept_assocs_from(a, e, i + 1) + kept_assocs_from(b, e, 0))
                =~= (seq![a[i]] + kept_assocs_from(a, e, i + 1)) + kept_assocs_from(b, e, 0));
        }
    } else {
        lemma_kept_assocs_shift(a, b, e, 0);
        assert(kept_assocs_from(a, e, i) + kept_assocs_from(b, e, 0) =~= kept_assocs_from(b, e, 0));
    }
}

/// A sequence with no pair of endpoint `e` is kept whole.
proof fn lemma_kept_assocs_id(a: Seq<(int, int)>, e: int, i: int)
    requires
        0 <= i <= a.len(),
        forall|k: int| i <= k < a.len() ==> (#[trigger] a[k]).0 != e,
    ensures
        kept_assocs_from(a, e, i) == a.subrange(i, a.len() as int),
    decreases a.len() - i,
{
    if i < a.len() {
        lemma_kept_assocs_id(a, e, i + 1);
        assert(seq![a[i]] + a.subrange(i + 1, a.len() as int) =~= a.subrange(i, a.len() as int));
    } else {
        assert(a.subrange(i, a.len() as int) =~= Seq::<(int, int)>::empty());
    }
}

/// A sequence holding only pairs of endpoint `e` is filtered away entirely.
proof fn lemma_kept_assocs_empty(a: Seq<(int, int)>, e: int, i: int)
    requires
        0 <= i <= a.len(),
        forall|k: int| i <= k < a.len() ==> (#[trigger] a[k]).0 == e,
    ensures
        kept_assocs_from(a, e, i) == Seq::<(int, int)>::empty(),
    decreases a.len() - i,
{
    if i < a.len() {
        lemma_kept_assocs_empty(a, e, i + 1);
    }
}

/// Nothing of endpoint `e` survives the filter.
proof fn lemma_kept_assocs_no_e(a: Seq<(int, int)>, e: int, i: int)
    requires
        0 <= i <= a.len(),
    ensures
        forall|k: int|
            0 <= k < kept_assocs_from(a, e, i).len() ==> (#[trigger] kept_assocs_from(
                a,
                e,
                i,
            )[k]).0 != e,
    decreases a.len() - i,
{
    if i < a.len() {
        lemma_kept_assocs_no_e(a, e, i + 1);
        if a[i].0 != e {
            assert forall|k: int| 0 <= k < kept_assocs_from(a, e, i).len() implies (
            #[trigger] kept_assocs_from(a, e, i)[k]).0 != e by {
                if k > 0 {
                    assert(kept_assocs_from(a, e, i)[k] == kept_assocs_from(a, e, i + 1)[k - 1]);
                }
            }
        }
    }
}

/// Filtering geography rows over a concatenation from beyond the first part.
proof fn lemma_kept_geo_shift(
    a: Seq<GeographyItemV>,
    b: Seq<GeographyItemV>,
    assocs: Seq<(int, int)>,
    e: int,
    k: int,
)
    requires
        0 <= k <= b.len(),
    ensures
        kept_geo_from(a + b, assocs, e, a.len() + k) == kept_geo_from(b, assocs, e, k),
    decreases b.len() - k,
{
    if k < b.len() {
        lemma_kept_geo_shift(a, b, assocs, e, k + 1);
        assert((a + b)[a.len() + k] == b[k]);
    }
}

/// Filtering geography rows over a concatenation filters each part.
proof fn lemma_kept_geo_concat(
    a: Seq<GeographyItemV>,
    b: Seq<GeographyItemV>,
    assocs: Seq<(int, int)>,
    e: int,
    i: int,
)
    requires
        0 <= i <= a.len(),
    ensures
        kept_geo_from(a + b, assocs, e, i) == kept_geo_from(a, assocs, e, i) + kept_geo_from(
            b,
            assocs,
            e,
            0,
        ),
    decreases a.len() - i,
{
    if i < a.len() {
        lemma_kept_geo_concat(a, b, assocs, e, i + 1);
        assert((a + b)[i] == a[i]);
        if !pair_present(assocs, e, a[i].id, 0) {
            assert(seq![a[i]] + (kept_geo_from(a, assocs, e, i + 1) + kept_geo_from(b, assocs, e, 0))
                =~= (seq![a[i]] + kept_geo_from(a, assocs, e, i + 1)) + kept_geo_from(
                b,
                assocs,
                e,
                0,
            ));
        }
    } else {
        lemma_kept_geo_shift(a, b, assocs, e, 0);
        assert(kept_geo_from(a, assocs, e, i) + kept_geo_from(b, assocs, e, 0) =~= kept_geo_from(
            b,
            assocs,
            e,
            0,
        ));
    }
}

/// Rows that no association of `e` references are kept whole.
proof fn lemma_kept_geo_id(g: Seq<GeographyItemV>, assocs: Seq<(int, int)>, e: int, i: int)
    requires
        0 <= i <= g.len(),
        forall|k: int| i <= k < g.len() ==> !pair_present(assocs, e, (#[trigger] g[k]).id, 0),
    ensures
        kept_geo_from(g, assocs, e, i) == g.subrange(i, g.len() as int),
    decreases g.len() - i,
{
    if i < g.len() {
        lemma_kept_geo_id(g, assocs, e, i + 1);
        assert(seq![g[i]] + g.subrange(i + 1, g.len() as int) =~= g.subrange(i, g.len() as int));
    } else {
        assert(g.subrange(i, g.len() as int) =~= Seq::<GeographyItemV>::empty());
    }
}

/// Rows that are all referenced by `e` are removed entirely.
proof fn lemma_kept_geo_empty(g: Seq<GeographyItemV>, assocs: Seq<(int, int)>, e: int, i: int)
    requires
        0 <= i <= g.len(),
        forall|k: int| i <= k < g.len() ==> pair_present(assocs, e, (#[trigger] g[k]).id, 0),
    ensures
        kept_geo_from(g, assocs, e, i) == Seq::<GeographyItemV>::empty(),
    decreases g.len() - i,
{
    if i < g.len() {
        lemma_kept_geo_empty(g, assocs, e, i + 1);
    }
}

/// Filtering keeps every row's identity below any bound the whole sequence
/// respected.
proof fn lemma_kept_geo_ids(g: Seq<GeographyItemV>, assocs: Seq<(int, int)>, e: int, i: int, bound: int)
    requires
        0 <= i <= g.len(),
        forall|k: int| 0 <= k < g.len() ==> (#[trigger] g[k]).id < bound,
    ensures
        forall|k: int|
            0 <= k < kept_geo_from(g, assocs, e, i).len() ==> (#[trigger] kept_geo_from(
                g,
                assocs,
                e,
                i,
            )[k]).id < bound,
    decreases g.len() - i,
{
    if i < g.len() {
        lemma_kept_geo_ids(g, assocs, e, i + 1, bound);
    }
}

/// Two successive geography replacements for one endpoint — the two record
/// lists may differ — leave exactly the rows and associations of the second
/// run: the second deletion removes precisely what the first run inserted
/// and touches nothing else, and the store then holds one fresh row and one
/// fresh association per record of the second list, no more.
pub proof fn lemma_replace_geography_twice(
    s: StoreV,
    e: int,
    items1: Seq<GeographyItemV>,
    items2: Seq<GeographyItemV>,
)
    requires
        geo_ids_bounded(s),
    ensures
        ({
            let d1 = spec_delete_geography(s, e);
            let s1 = spec_insert_geographies(d1, e, items1, 0, items1.len() as int);
            let d2 = spec_delete_geography(s1, e);
            let s2 = spec_insert_geographies(d2, e, items2, 0, items2.len() as int);
            &&& d2.geography == d1.geography
            &&& d2.geography_assocs == d1.geography_assocs
            &&& s2.geography == d1.geography + Seq::new(
                items2.len(),
                |k: int| with_geography_id(items2[k], s1.next_geography_id + k),
            )
            &&& s2.geography_assocs == d1.geography_assocs + Seq::new(
                items2.len(),
                |k: int| (e, s1.next_geography_id + k),
            )
        }),
{
    let n1 = s.next_geography_id;
    let d1 = spec_delete_geography(s, e);
    let s1 = spec_insert_geographies(d1, e, items1, 0, items1.len() as int);
    let d2 = spec_delete_geography(s1, e);
    let s2 = spec_insert_geographies(d2, e, items2, 0, items2.len() as int);
    let f1rows = Seq::new(items1.len(), |k: int| with_geography_id(items1[k], n1 + k));
    let f1pairs = Seq::new(items1.len(), |k: int| (e, n1 + k));
    lemma_insert_geographies_shape(d1, e, items1, 0, items1.len() as int);
    assert(s1.geography =~= d1.geography + f1rows);
    assert(s1.geography_assocs =~= d1.geography_assocs + f1pairs);
    // The second deletion's associations: the first run's pairs all belong to
    // `e` and vanish, the kept ones belong to other endpoints and stay.
    lemma_kept_assocs_concat(d1.geography_assocs, f1pairs, e, 0);
    lemma_kept_assocs_no_e(s.geography_assocs, e, 0);
    lemma_kept_assocs_id(d1.geography_assocs, e, 0);
    lemma_kept_assocs_empty(f1pairs, e, 0);
    assert(d2.geography_assocs =~= d1.geography_assocs);
    // The second deletion's rows: the kept rows' identities lie below `n1`,
    // so no pair of the first run references them; the first run's rows are
    // all referenced and vanish.
    lemma_kept_geo_concat(d1.geography, f1rows, s1.geography_assocs, e, 0);
    lemma_kept_geo_ids(s.geography, s.geography_assocs, e, 0, n1);
    assert forall|k: int| 0 <= k < d1.geography.len() implies !pair_present(
        s1.geography_assocs,
        e,
        (#[trigger] d1.geography[k]).id,
        0,
    ) by {
        lemma_pair_present_exists(s1.geography_assocs, e, d1.geography[k].id, 0);
        if pair_present(s1.geography_assocs, e, d1.geography[k].id, 0) {
            let w = choose|w: int|
                0 <= w < s1.geography_assocs.len() && (#[trigger] s1.geography_assocs[w]).0 == e
                    && s1.geography_assocs[w].1 == d1.geography[k].id;
            if w < d1.geography_assocs.len() {
                lemma_kept_assocs_no_e(s.geography_assocs, e, 0);
            } else {
                assert(s1.geography_assocs[w] == f1pairs[w - d1.geography_assocs.len()]);
            }
        }
    }
    lemma_kept_geo_id(d1.geography, s1.geography_assocs, e, 0);
    assert forall|k: int| 0 <= k < f1rows.len() implies pair_present(
        s1.geography_assocs,
        e,
        (#[trigger] f1rows[k]).id,
        0,
    ) by {
        lemma_pair_present_exists(s1.geography_assocs, e, f1rows[k].id, 0);
        assert(s1.geography_assocs[d1.geography_assocs.len() + k] == f1pairs[k]);
    }
    lemma_kept_geo_empty(f1rows, s1.geography_assocs, e, 0);
    assert(d2.geography =~= d1.geography);
    // The second run then appends exactly one fresh row and pair per record
    // of its own list.
    lemma_insert_geographies_shape(d2, e, items2, 0, items2.len() as int);
    assert(s2.geography =~= d1.geography + Seq::new(
        items2.len(),
        |k: int| with_geography_id(items2[k], s1.next_geography_id + k),
    ));
    assert(s2.geography_assocs =~= d1.geography_assocs + Seq::new(
        items2.len(),
        |k: int| (e, s1.next_geography_id + k),
    ));
}

} // verus!
