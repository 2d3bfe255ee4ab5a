use us_census::calendar::{parse_date, CalendarDate};
use us_census::json::DecodeError;
use us_census::parse_geography::parse_geography;
use us_census::parse_variables::{parse_variables, VariablesCollection, VariablesItem};
use us_census::text::{parse_i32, split_string, trim_one_char, SplitRule};

#[test]
fn test_parse_backslashes() {
    let object_under_test = r#"
    {
      "variables": {
        "a": {
          "label": "foo!!bar!! \"baz\"",
          "predicateType": "int",
          "group": "g1,g2,g3,g4",
          "limit": 0,
          "attributes": "A,B,C"
        },
        "b": {
          "label": "qux!!quux!!corge",
          "predicateType": "int",
          "group": "g2",
          "limit": 0,
          "attributes": "D,E,F"
        }
      }
    }"#;
    let result: VariablesCollection =
        parse_variables(object_under_test).expect("Error parsing JSON");
    let expected = VariablesCollection {
        variables: vec![
            VariablesItem {
                id: 0,
                name: String::from("a"),
                label: vec![
                    String::from("foo"),
                    String::from("bar"),
                    String::from(" \"baz\""),
                ],
                concept: None,
                required: None,
                predicate_type: Option::from(String::from("int")),
                group: Option::from(vec![
                    String::from("g1"),
                    String::from("g2"),
                    String::from("g3"),
                    String::from("g4"),
                ]),
                limit: Option::from(0),
                predicate_only: None,
                attributes: Option::from(vec![
                    String::from("A"),
                    String::from("B"),
                    String::from("C"),
                ]),
            },
            VariablesItem {
                id: 0,
                name: String::from("b"),
                label: vec![
                    String::from("qux"),
                    String::from("quux"),
                    String::from("corge"),
                ],
                concept: None,
                required: None,
                predicate_type: Option::from(String::from("int")),
                group: Option::from(vec![String::from("g2")]),
                limit: Option::from(0),
                predicate_only: None,
                attributes: Option::from(vec![
                    String::from("D"),
                    String::from("E"),
                    String::from("F"),
                ]),
            },
        ],
    };
    assert_eq!(result, expected);
}

#[test]
fn year_only_dates_become_january_first() {
    assert_eq!(
        parse_date("2010"),
        Some(CalendarDate { year: 2010, month: 1, day: 1 })
    );
    assert_eq!(
        parse_date("0001"),
        Some(CalendarDate { year: 1, month: 1, day: 1 })
    );
    assert_eq!(
        parse_date("9999"),
        Some(CalendarDate { year: 9999, month: 1, day: 1 })
    );
}

#[test]
fn full_dates_parse_exactly() {
    assert_eq!(
        parse_date("2010-01-01"),
        Some(CalendarDate { year: 2010, month: 1, day: 1 })
    );
    assert_eq!(
        parse_date("2020-02-29"),
        Some(CalendarDate { year: 2020, month: 2, day: 29 })
    );
    // Not a leap year: divisible by 100 but not by 400.
    assert_eq!(parse_date("1900-02-29"), None);
    // Leap year: divisible by 400.
    assert_eq!(
        parse_date("2000-02-29"),
        Some(CalendarDate { year: 2000, month: 2, day: 29 })
    );
    assert_eq!(parse_date("2010-02-30"), None);
    assert_eq!(parse_date("2010-13-01"), None);
    assert_eq!(parse_date("2010-1-1"), None);
    assert_eq!(parse_date("201"), None);
    assert_eq!(parse_date("20x0"), None);
    assert_eq!(parse_date("2010-01-01x"), None);
}

#[test]
fn geography_dates_flow_through() {
    let doc = r#"{ "fips": [ { "name": "us", "referenceDate": "2010-01-01" } ] }"#;
    let result = parse_geography(doc).expect("Error parsing JSON");
    assert_eq!(result.fips.len(), 1);
    assert_eq!(result.fips[0].name, "us");
    assert_eq!(
        result.fips[0].reference_date,
        Some(CalendarDate { year: 2010, month: 1, day: 1 })
    );

    let doc_year = r#"{ "fips": [ { "name": "us", "referenceDate": "2010" } ] }"#;
    let result = parse_geography(doc_year).expect("Error parsing JSON");
    assert_eq!(
        result.fips[0].reference_date,
        Some(CalendarDate { year: 2010, month: 1, day: 1 })
    );

    let bad = r#"{ "fips": [ { "name": "us", "referenceDate": "next year" } ] }"#;
    match parse_geography(bad) {
        Err(DecodeError::Date(m)) => assert_eq!(m, "next year"),
        other => panic!("expected a date decode error, got {:?}", other),
    }
}

#[test]
fn wildcard_false_becomes_empty_sequence() {
    let doc = r#"{ "fips": [ { "name": "us", "wildcard": false } ] }"#;
    let result = parse_geography(doc).expect("Error parsing JSON");
    assert_eq!(result.fips[0].wildcard, Some(Vec::new()));
}

#[test]
fn wildcard_array_kept_unchanged() {
    let doc = r#"{ "fips": [ { "name": "us", "wildcard": ["COUNTY", "TRACT"] } ] }"#;
    let result = parse_geography(doc).expect("Error parsing JSON");
    assert_eq!(
        result.fips[0].wildcard,
        Some(vec![String::from("COUNTY"), String::from("TRACT")])
    );
}

#[test]
fn wildcard_true_is_rejected() {
    let doc = r#"{ "fips": [ { "name": "us", "wildcard": true } ] }"#;
    match parse_geography(doc) {
        Err(DecodeError::WildcardTrue) => {}
        other => panic!("expected the wildcard rejection, got {:?}", other),
    }
}

#[test]
fn limit_integer_string_and_quoted_string_agree() {
    let with_int = r#"{ "fips": [ { "name": "us", "limit": 51 } ] }"#;
    let with_str = r#"{ "fips": [ { "name": "us", "limit": "51" } ] }"#;
    let with_quote = r#"{ "fips": [ { "name": "us", "limit": "\"51" } ] }"#;
    for doc in [with_int, with_str, with_quote] {
        let result = parse_geography(doc).expect("Error parsing JSON");
        assert_eq!(result.fips[0].limit, Some(51));
    }
    let big = r#"{ "fips": [ { "name": "us", "limit": "65536" } ] }"#;
    let result = parse_geography(big).expect("Error parsing JSON");
    assert_eq!(result.fips[0].limit, Some(65536));
    let bad = r#"{ "fips": [ { "name": "us", "limit": "fifty" } ] }"#;
    match parse_geography(bad) {
        Err(DecodeError::Limit(m)) => assert_eq!(m, "fifty"),
        other => panic!("expected a limit decode error, got {:?}", other),
    }
}

#[test]
fn parse_i32_handles_signs_and_range() {
    assert_eq!(parse_i32("51"), Some(51));
    assert_eq!(parse_i32("+51"), Some(51));
    assert_eq!(parse_i32("-51"), Some(-51));
    assert_eq!(parse_i32("0000000051"), Some(51));
    assert_eq!(parse_i32("2147483647"), Some(2147483647));
    assert_eq!(parse_i32("2147483648"), None);
    assert_eq!(parse_i32("-2147483648"), Some(-2147483648));
    assert_eq!(parse_i32("-2147483649"), None);
    assert_eq!(parse_i32(""), None);
    assert_eq!(parse_i32("-"), None);
    assert_eq!(parse_i32("5a"), None);
}

#[test]
fn label_split_trims_one_trailing_colon() {
    let trimmed = trim_one_char("foo!!bar!!baz:", ':');
    let parts = split_string(SplitRule::Label, trimmed);
    assert_eq!(
        parts,
        vec![String::from("foo"), String::from("bar"), String::from("baz")]
    );
}

#[test]
fn label_split_takes_colon_bang_bang_as_one_delimiter() {
    let parts = split_string(SplitRule::Label, "a:!!b!!c");
    assert_eq!(
        parts,
        vec![String::from("a"), String::from("b"), String::from("c")]
    );
    let no_delim = split_string(SplitRule::Label, "alone");
    assert_eq!(no_delim, vec![String::from("alone")]);
}

#[test]
fn variable_names_come_from_the_map_keys() {
    let doc = r#"
    {
      "variables": {
        "B01001_001E": { "label": "Total", "name": "ignored" },
        "B01001_002E": { "label": "Male", "name": "also ignored" }
      }
    }"#;
    let result = parse_variables(doc).expect("Error parsing JSON");
    assert_eq!(result.variables.len(), 2);
    let mut names: Vec<&str> = result.variables.iter().map(|v| v.name.as_str()).collect();
    names.sort();
    assert_eq!(names, vec!["B01001_001E", "B01001_002E"]);
}

#[test]
fn missing_fips_yields_empty_collection() {
    let doc = r#"{ "default": [ { "isDefault": "true" } ] }"#;
    let result = parse_geography(doc).expect("Error parsing JSON");
    assert_eq!(result.fips.len(), 0);
}

#[test]
fn malformed_json_is_a_json_error() {
    match parse_geography("{ not json") {
        Err(DecodeError::Json(_)) => {}
        other => panic!("expected a JSON decode error, got {:?}", other),
    }
}

#[test]
fn wrong_shapes_are_shape_errors() {
    match parse_geography(r#"{ "fips": [ { "name": 5 } ] }"#) {
        Err(DecodeError::Shape(m)) => assert_eq!(m, "name"),
        other => panic!("expected a shape error, got {:?}", other),
    }
    match parse_variables(r#"{ "variables": { "a": { "label": 5 } } }"#) {
        Err(DecodeError::Shape(m)) => assert_eq!(m, "label"),
        other => panic!("expected a shape error, got {:?}", other),
    }
    match parse_variables(r#"{ "variables": { "a": { "label": "x", "limit": 70000 } } }"#) {
        Err(DecodeError::Shape(m)) => assert_eq!(m, "limit"),
        other => panic!("expected a shape error, got {:?}", other),
    }
    match parse_variables(r#"{ "variables": [] }"#) {
        Err(DecodeError::Shape(m)) => assert_eq!(m, "variables"),
        other => panic!("expected a shape error, got {:?}", other),
    }
}

#[test]
fn labels_are_never_empty() {
    let doc = r#"{ "variables": { "a": { "label": "" } } }"#;
    let result = parse_variables(doc).expect("Error parsing JSON");
    assert_eq!(result.variables[0].label, vec![String::from("")]);
}

#[test]
fn requires_field_is_kept_as_a_list() {
    let doc = r#"{ "fips": [ { "name": "county", "requires": ["state"] } ] }"#;
    let result = parse_geography(doc).expect("Error parsing JSON");
    assert_eq!(result.fips[0].requires_list, Some(vec![String::from("state")]));
    let absent = r#"{ "fips": [ { "name": "us" } ] }"#;
    let result = parse_geography(absent).expect("Error parsing JSON");
    assert_eq!(result.fips[0].requires_list, None);
}

#[test]
fn predicate_only_accepts_booleans() {
    let doc = r#"{ "variables": { "a": { "label": "x", "predicateOnly": true } } }"#;
    let result = parse_variables(doc).expect("Error parsing JSON");
    assert_eq!(result.variables[0].predicate_only, Some(true));
}

#[test]
fn catalog_entries_parse_field_by_field() {
    let doc = r#"
    {
      "dataset": [
        {
          "c_vintage": 2020,
          "c_dataset": ["acs", "acs5", null],
          "c_geographyLink": "http://api.census.gov/data/2020/acs/acs5/geography.json",
          "c_variablesLink": "http://api.census.gov/data/2020/acs/acs5/variables.json",
          "title": "ACS 5-Year Estimates",
          "description": "American Community Survey"
        }
      ]
    }"#;
    let result = us_census::models::parse_api_paths(doc).expect("Error parsing JSON");
    assert_eq!(result.dataset.len(), 1);
    let entry = &result.dataset[0];
    assert_eq!(entry.c_vintage, Some(2020));
    assert_eq!(
        entry.c_dataset,
        vec![Some(String::from("acs")), Some(String::from("acs5")), None]
    );
    assert_eq!(entry.title, "ACS 5-Year Estimates");
    let missing = r#"{ "notdataset": [] }"#;
    assert!(us_census::models::parse_api_paths(missing).is_err());
}
