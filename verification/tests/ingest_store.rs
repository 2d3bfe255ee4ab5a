use us_census::ingest::{
    delete_endpoint_geography, insert_geographies, insert_variables,
    insert_variables_and_geography_for_api_path, InsertError, Store,
};
use us_census::models::ApiPaths;
use us_census::parse_geography::parse_geography;
use us_census::parse_variables::parse_variables;

fn endpoint(id: i32) -> ApiPaths {
    ApiPaths {
        id,
        c_vintage: Some(2020),
        c_dataset: vec![Some(String::from("acs")), Some(String::from("acs5"))],
        c_geography_link: String::from("http://api.census.gov/data/2020/acs/acs5/geography.json"),
        c_variables_link: String::from("http://api.census.gov/data/2020/acs/acs5/variables.json"),
        title: String::from("ACS 5-Year Estimates"),
        description: String::from("American Community Survey"),
    }
}

const VARIABLES_DOC: &str = r#"
{
  "variables": {
    "B01001_001E": { "label": "Total", "group": "B01001" },
    "B01001_002E": { "label": "Total!!Male", "group": "B01001" }
  }
}"#;

const GEOGRAPHY_DOC: &str = r#"
{
  "fips": [
    { "name": "us", "geoLevelDisplay": "010", "referenceDate": "2010-01-01" },
    { "name": "state", "geoLevelDisplay": "040", "referenceDate": "2010-01-01", "wildcard": false }
  ]
}"#;

#[test]
fn ingestion_fills_the_store() {
    let vars = parse_variables(VARIABLES_DOC).unwrap();
    let geos = parse_geography(GEOGRAPHY_DOC).unwrap();
    let mut store = Store::new();
    let meta = endpoint(7);
    insert_variables_and_geography_for_api_path(&mut store, &meta, &vars, &geos, "uniq_name")
        .unwrap();
    assert_eq!(store.variables.len(), 2);
    assert_eq!(store.geography.len(), 2);
    assert_eq!(store.variable_assocs.len(), 2);
    assert_eq!(store.geography_assocs.len(), 2);
    for (e, _) in &store.variable_assocs {
        assert_eq!(*e, 7);
    }
    for (e, _) in &store.geography_assocs {
        assert_eq!(*e, 7);
    }
}

#[test]
fn rerunning_geography_ingestion_leaves_only_the_second_run() {
    let vars = parse_variables(VARIABLES_DOC).unwrap();
    let geos = parse_geography(GEOGRAPHY_DOC).unwrap();
    let mut store = Store::new();
    let meta = endpoint(7);
    insert_variables_and_geography_for_api_path(&mut store, &meta, &vars, &geos, "uniq_name")
        .unwrap();
    let rows_after_first: Vec<String> =
        store.geography.iter().map(|g| g.name.clone()).collect();
    insert_variables_and_geography_for_api_path(&mut store, &meta, &vars, &geos, "uniq_name")
        .unwrap();
    // No duplication, no leftovers from the first run.
    assert_eq!(store.geography.len(), 2);
    assert_eq!(store.geography_assocs.len(), 2);
    let rows_after_second: Vec<String> =
        store.geography.iter().map(|g| g.name.clone()).collect();
    assert_eq!(rows_after_first, rows_after_second);
    // The second run's rows are fresh: their identities moved on.
    for g in &store.geography {
        assert!(g.id >= 3);
    }
}

#[test]
fn rerunning_variable_ingestion_adds_nothing() {
    let vars = parse_variables(VARIABLES_DOC).unwrap();
    let geos = parse_geography(GEOGRAPHY_DOC).unwrap();
    let mut store = Store::new();
    let meta = endpoint(7);
    insert_variables_and_geography_for_api_path(&mut store, &meta, &vars, &geos, "uniq_name")
        .unwrap();
    let vars_after_first = store.variables.len();
    let assocs_after_first = store.variable_assocs.clone();
    insert_variables_and_geography_for_api_path(&mut store, &meta, &vars, &geos, "uniq_name")
        .unwrap();
    assert_eq!(store.variables.len(), vars_after_first);
    assert_eq!(store.variable_assocs, assocs_after_first);
}

const GEOGRAPHY_DOC_SECOND: &str = r#"
{
  "fips": [
    { "name": "county", "geoLevelDisplay": "050" }
  ]
}"#;

#[test]
fn rerunning_with_different_geography_keeps_only_the_second_documents_rows() {
    let vars = parse_variables(VARIABLES_DOC).unwrap();
    let geos = parse_geography(GEOGRAPHY_DOC).unwrap();
    let geos_second = parse_geography(GEOGRAPHY_DOC_SECOND).unwrap();
    let mut store = Store::new();
    let meta = endpoint(7);
    insert_variables_and_geography_for_api_path(&mut store, &meta, &vars, &geos, "uniq_name")
        .unwrap();
    insert_variables_and_geography_for_api_path(
        &mut store,
        &meta,
        &vars,
        &geos_second,
        "uniq_name",
    )
    .unwrap();
    // Only the second document's single row survives; nothing of the first
    // run's two rows is left.
    assert_eq!(store.geography.len(), 1);
    assert_eq!(store.geography_assocs.len(), 1);
    assert_eq!(store.geography[0].name, "county");
}

#[test]
fn two_endpoints_keep_disjoint_geography() {
    let vars = parse_variables(VARIABLES_DOC).unwrap();
    let geos = parse_geography(GEOGRAPHY_DOC).unwrap();
    let mut store = Store::new();
    insert_variables_and_geography_for_api_path(&mut store, &endpoint(1), &vars, &geos, "uniq")
        .unwrap();
    insert_variables_and_geography_for_api_path(&mut store, &endpoint(2), &vars, &geos, "uniq")
        .unwrap();
    assert_eq!(store.geography.len(), 4);
    // Re-running endpoint 1 leaves endpoint 2's rows alone.
    insert_variables_and_geography_for_api_path(&mut store, &endpoint(1), &vars, &geos, "uniq")
        .unwrap();
    assert_eq!(store.geography.len(), 4);
    let for_two: Vec<i32> = store
        .geography_assocs
        .iter()
        .filter(|(e, _)| *e == 2)
        .map(|(_, g)| *g)
        .collect();
    assert_eq!(for_two.len(), 2);
}

#[test]
fn shared_variables_are_not_duplicated_across_endpoints() {
    let vars = parse_variables(VARIABLES_DOC).unwrap();
    let geos = parse_geography(GEOGRAPHY_DOC).unwrap();
    let mut store = Store::new();
    insert_variables_and_geography_for_api_path(&mut store, &endpoint(1), &vars, &geos, "uniq")
        .unwrap();
    insert_variables_and_geography_for_api_path(&mut store, &endpoint(2), &vars, &geos, "uniq")
        .unwrap();
    // Upserts found the same names: two rows, four association pairs.
    assert_eq!(store.variables.len(), 2);
    assert_eq!(store.variable_assocs.len(), 4);
}

#[test]
fn exhausted_identity_space_changes_nothing() {
    let vars = parse_variables(VARIABLES_DOC).unwrap();
    let geos = parse_geography(GEOGRAPHY_DOC).unwrap();
    let mut store = Store::new();
    store.next_geography_id = i32::MAX;
    let before_vars = store.variables.len();
    let r = insert_variables_and_geography_for_api_path(
        &mut store,
        &endpoint(7),
        &vars,
        &geos,
        "uniq",
    );
    assert!(matches!(r, Err(InsertError::Database(_))));
    // Nothing partially committed.
    assert_eq!(store.variables.len(), before_vars);
    assert_eq!(store.variable_assocs.len(), 0);
    assert_eq!(store.geography.len(), 0);
}

#[test]
fn batch_operations_compose() {
    let vars = parse_variables(VARIABLES_DOC).unwrap();
    let geos = parse_geography(GEOGRAPHY_DOC).unwrap();
    let mut store = Store::new();
    insert_variables(&vars.variables, 0, 1, &mut store, 3, "uniq").unwrap();
    insert_variables(&vars.variables, 1, 2, &mut store, 3, "uniq").unwrap();
    assert_eq!(store.variables.len(), 2);
    delete_endpoint_geography(&mut store, 3);
    insert_geographies(&geos.fips, 0, 2, &mut store, 3).unwrap();
    assert_eq!(store.geography.len(), 2);
    assert_eq!(store.geography_assocs, vec![(3, 1), (3, 2)]);
}
