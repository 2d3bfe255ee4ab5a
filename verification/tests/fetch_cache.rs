use url::Url;
use us_census::fetch_api_metadata::{
    cache_path_from_segments, cache_path_from_url, plan_fetch, CachePath, FetchError, FetchPlan,
};

#[test]
fn test_no_path() {
    let url = Url::parse("https://api.census.gov").unwrap();
    let result = cache_path_from_url(&url, ".");
    match result {
        Ok(_) => panic!("Expected an error, but got Ok"),
        Err(FetchError::PathError(m)) => assert!(
            m.contains("period"),
            "Error message '{}' does not contain expected pattern 'period'",
            m
        ),
        Err(other) => panic!("expected a path error, got {:?}", other),
    }
}

#[test]
fn test_no_file_extension() {
    let url = Url::parse("https://api.census.gov/data/2020/acs/acs5/variables").unwrap();
    let result = cache_path_from_url(&url, ".");
    match result {
        Ok(_) => panic!("Expected an error, but got Ok"),
        Err(FetchError::PathError(m)) => assert!(
            m.contains("file extension"),
            "Error message '{}' does not contain expected pattern 'file extension'",
            m
        ),
        Err(other) => panic!("expected a path error, got {:?}", other),
    }
}

#[test]
fn cache_path_mirrors_the_url_path() {
    let url = Url::parse("https://api.census.gov/data/2020/acs/acs5/variables.json").unwrap();
    for base in [".", "..", "../foo", "./../foo", "/home/jdoe/Documents", "~/Documents"] {
        let cp = cache_path_from_url(&url, base).unwrap();
        assert_eq!(cp.file(), "variables.json");
        assert_eq!(cp.dir().as_str(), format!("{}/data/2020/acs/acs5", base));
        assert_eq!(
            cp.path(),
            format!("{}/data/2020/acs/acs5/variables.json", base)
        );
    }
}

#[test]
fn cache_path_from_empty_segment_list_fails() {
    let segments: Vec<String> = Vec::new();
    match cache_path_from_segments(&segments, ".") {
        Err(FetchError::PathError(_)) => {}
        other => panic!("expected a path error, got {:?}", other),
    }
}

#[test]
fn cache_path_single_segment_has_no_subdirectory() {
    let url = Url::parse("https://api.census.gov/data.json").unwrap();
    let cp = cache_path_from_url(&url, ".").unwrap();
    assert_eq!(cp.dir().as_str(), ".");
    assert_eq!(cp.file(), "data.json");
    assert_eq!(cp.path(), "./data.json");
}

#[test]
fn try_new_checks_extensions() {
    let ok = CachePath::try_new(String::from("cache/data"), String::from("variables.json"));
    assert!(ok.is_ok());
    let bad_dir = CachePath::try_new(String::from("cache/data.json"), String::from("v.json"));
    assert!(matches!(bad_dir, Err(FetchError::PathError(m)) if m.contains("cache/data.json")));
    let bad_file = CachePath::try_new(String::from("cache/data"), String::from("variables"));
    assert!(matches!(bad_file, Err(FetchError::PathError(m)) if m.contains("variables")));
}

#[test]
fn try_new_treats_dot_components_as_extensionless() {
    // `.` and `..` name no file, so they carry no extension: fine as a
    // directory's last segment, refused as a file name.
    assert!(CachePath::try_new(String::from(".."), String::from("v.json")).is_ok());
    assert!(CachePath::try_new(String::from("cache/.."), String::from("v.json")).is_ok());
    assert!(matches!(
        CachePath::try_new(String::from("cache"), String::from("..")),
        Err(FetchError::PathError(_))
    ));
    // A hidden file whose only dot leads has no extension either.
    assert!(matches!(
        CachePath::try_new(String::from("cache"), String::from(".json")),
        Err(FetchError::PathError(_))
    ));
    // Three dots are an ordinary name whose final dot separates an empty
    // extension.
    assert!(matches!(
        CachePath::try_new(String::from("c/..."), String::from("v.json")),
        Err(FetchError::PathError(_))
    ));
}

#[test]
fn cached_documents_are_never_fetched_again() {
    assert_eq!(plan_fetch(true), FetchPlan::ReadCache);
    assert_eq!(plan_fetch(false), FetchPlan::DownloadAndStore);
}

#[test]
fn new_cache_path_keeps_its_parts() {
    let cp = CachePath::new(String::from("base/dir"), String::from("f.json"));
    assert_eq!(cp.dir().as_str(), "base/dir");
    assert_eq!(cp.file().as_str(), "f.json");
    assert_eq!(cp.path(), "base/dir/f.json");
}

#[test]
fn try_new_ignores_trailing_separators() {
    // A trailing slash does not hide the component before it.
    assert!(matches!(
        CachePath::try_new(String::from("a/b.c/"), String::from("v.json")),
        Err(FetchError::PathError(_))
    ));
    assert!(CachePath::try_new(String::from("cache/data"), String::from("x.json/")).is_ok());
    assert!(CachePath::try_new(String::from("cache/data///"), String::from("v.json")).is_ok());
}
