use deskvio::releases::{assert_unique_release_versions, ReleaseEntry};
use deskvio::sys::now_unix;
use deskvio::zip_import::zip_path_depth;

#[test]
fn zip_depth_counts_components() {
    assert_eq!(zip_path_depth("a/b/c"), 3);
    assert_eq!(zip_path_depth("readme.md"), 1);
}

#[test]
fn unique_versions_are_enforced_case_insensitive() {
    let now = now_unix();
    let rel = |id: &str, version: &str| ReleaseEntry {
        id: id.to_string(),
        version: version.to_string(),
        title: String::new(),
        notes: String::new(),
        source_url: String::new(),
        assets: Vec::new(),
        created_at: now,
        updated_at: now,
    };
    let dup = vec![rel("a", "v1.0.0"), rel("b", "V1.0.0")];
    assert!(assert_unique_release_versions(&dup).is_err());
}
