use nupkgd::nuget_version::NugetVersion;
use nupkgd::nuspec::Nuspec;
use nupkgd::search::{get_search, SearchQuery};
use nupkgd::search_index::{SearchIndex, SearchIndexItem};

const BASE_URL: &str = "http://localhost:5555";

fn nuspec(id: &str, version: &str) -> Nuspec {
    Nuspec {
        id: id.to_string(),
        version: NugetVersion::parse(version).unwrap(),
        description: format!("{id} {version}"),
        authors: "Matthew Andrews".to_string(),
        tags: vec!["tag".to_string()],
        ..Nuspec::default()
    }
}

fn find<'a>(index: &'a SearchIndex, id: &str) -> &'a SearchIndexItem {
    index.data.iter().find(|m| m.id == id).unwrap_or_else(|| panic!("no item with id {id}"))
}

#[test]
fn test_new_with_empty_returns_default() {
    let index = SearchIndex::new(BASE_URL, &[], None, None, None);
    assert_eq!(index.total_hits, 0);
    assert!(index.data.is_empty());
}

#[test]
fn test_new_groups_by_id_case_insensitively() {
    let pkg = vec![
        nuspec("Foo.Bar", "1.0.0"),
        nuspec("foo.bar", "1.1.0"),
        nuspec("FOO.BAR", "2.0.0"),
        nuspec("Baz", "0.1.0"),
    ];
    let index = SearchIndex::new(BASE_URL, &pkg, None, None, None);
    assert_eq!(index.total_hits, 2);
    assert_eq!(index.data.len(), 2);

    let foo = find(&index, "foo.bar");
    assert_eq!(foo.versions.len(), 3);
    let baz = find(&index, "baz");
    assert_eq!(baz.versions.len(), 1);
}

#[test]
fn test_new_uses_latest_version_for_item_metadata() {
    let pkg = vec![nuspec("Foo", "0.1.0"), nuspec("Foo", "2.0.0"), nuspec("Foo", "1.5.0")];
    let index = SearchIndex::new(BASE_URL, &pkg, None, None, None);
    let foo = find(&index, "foo");
    assert_eq!(foo.version, "2.0.0");
    assert_eq!(foo.description, "Foo 2.0.0");
}

#[test]
fn test_new_versions_sorted_ascending() {
    let pkg = vec![nuspec("Foo", "1.1.0"), nuspec("Foo", "0.1.0"), nuspec("Foo", "0.1.1")];
    let index = SearchIndex::new(BASE_URL, &pkg, None, None, None);
    let versions: Vec<&str> = find(&index, "foo").versions.iter().map(|v| v.version.as_str()).collect();
    assert_eq!(versions, vec!["0.1.0", "0.1.1", "1.1.0"]);
}

#[test]
fn test_new_excludes_prerelease_by_default() {
    let pkg = vec![nuspec("Foo", "1.0.0"), nuspec("Foo", "2.0.0-beta")];
    let index = SearchIndex::new(BASE_URL, &pkg, None, None, None);
    let foo = find(&index, "foo");
    assert_eq!(foo.version, "1.0.0");
    assert_eq!(foo.versions.len(), 1);
    assert_eq!(foo.versions[0].version, "1.0.0");
}

#[test]
fn test_new_excludes_prerelease_when_false() {
    let pkg = vec![nuspec("Foo", "1.0.0"), nuspec("Foo", "2.0.0-beta")];
    let index = SearchIndex::new(BASE_URL, &pkg, None, None, Some(false));
    let foo = find(&index, "foo");
    assert_eq!(foo.version, "1.0.0");
    assert_eq!(foo.versions.len(), 1);
}

#[test]
fn test_new_includes_prerelease_when_true() {
    let pkg = vec![nuspec("Foo", "1.0.0"), nuspec("Foo", "2.0.0-beta")];
    let index = SearchIndex::new(BASE_URL, &pkg, None, None, Some(true));
    let foo = find(&index, "foo");
    assert_eq!(foo.version, "2.0.0-beta");
    let versions: Vec<&str> = foo.versions.iter().map(|v| v.version.as_str()).collect();
    assert_eq!(versions, vec!["1.0.0", "2.0.0-beta"]);
}

#[test]
fn test_new_prerelease_only_package_is_hidden_without_prerelease() {
    let pkg = vec![nuspec("Stable", "1.0.0"), nuspec("PreOnly", "1.0.0-alpha")];
    let index = SearchIndex::new(BASE_URL, &pkg, None, None, None);
    assert_eq!(index.total_hits, 1);
    assert_eq!(index.data.len(), 1);
    assert_eq!(index.data[0].id, "stable");
}

#[test]
fn test_new_skip_and_take_page_results() {
    let pkg: Vec<Nuspec> = (0..5).map(|i| nuspec(&format!("Pkg{i}"), "1.0.0")).collect();

    let page = SearchIndex::new(BASE_URL, &pkg, Some(1), Some(2), None);
    assert_eq!(page.total_hits, 5, "total_hits should reflect all packages, not the page size");
    assert_eq!(page.data.len(), 2);

    let all = SearchIndex::new(BASE_URL, &pkg, None, None, None);
    assert_eq!(all.data.len(), 5);

    let skipped_past_end = SearchIndex::new(BASE_URL, &pkg, Some(10), None, None);
    assert_eq!(skipped_past_end.total_hits, 5);
    assert!(skipped_past_end.data.is_empty());
}

#[test]
fn test_new_default_take_is_20() {
    let pkg: Vec<Nuspec> = (0..25).map(|i| nuspec(&format!("Pkg{i}"), "1.0.0")).collect();
    let index = SearchIndex::new(BASE_URL, &pkg, None, None, None);
    assert_eq!(index.total_hits, 25);
    assert_eq!(index.data.len(), 20);
}

#[test]
fn test_new_item_fields() {
    let pkg = vec![Nuspec {
        authors: "Alice,Bob".to_string(),
        tags: vec!["one".to_string(), "two".to_string()],
        ..nuspec("Foo.Bar", "1.2.3")
    }];
    let index = SearchIndex::new(BASE_URL, &pkg, None, None, None);
    let item = find(&index, "foo.bar");

    assert_eq!(item.at_id, "http://localhost:5555/v3/registration/foo.bar/index.json");
    assert_eq!(item.registration, "http://localhost:5555/v3/registration/foo.bar/index.json");
    assert_eq!(item.at_type, "Package");
    assert_eq!(item.id, "foo.bar");
    assert_eq!(item.version, "1.2.3");
    assert_eq!(item.authors, vec!["Alice", "Bob"]);
    assert_eq!(item.tags, vec!["one", "two"]);
    assert!(item.verified);

    assert_eq!(item.versions.len(), 1);
    assert_eq!(item.versions[0].version, "1.2.3");
    assert_eq!(item.versions[0].at_id, "http://localhost:5555/v3/registration/foo.bar/1.2.3.json");
}

#[test]
fn results_come_in_order_of_lower_cased_id() {
    let pkg = vec![nuspec("Zeta", "1.0.0"), nuspec("alpha", "1.0.0"), nuspec("Mid", "1.0.0")];
    let index = SearchIndex::new(BASE_URL, &pkg, None, None, None);
    let ids: Vec<&str> = index.data.iter().map(|i| i.id.as_str()).collect();
    assert_eq!(ids, vec!["alpha", "mid", "zeta"]);
}

#[test]
fn every_result_reports_the_same_download_count() {
    let pkg = vec![nuspec("Foo", "1.0.0"), nuspec("Foo", "1.1.0")];
    let index = SearchIndex::new(BASE_URL, &pkg, None, None, None);
    assert_eq!(index.data[0].total_downloads, 31415265);
    assert!(index.data[0].versions.iter().all(|v| v.downloads == 31415265));
}

#[test]
fn take_of_zero_gives_an_empty_page_with_the_total() {
    let pkg = vec![nuspec("Foo", "1.0.0"), nuspec("Bar", "1.0.0")];
    let index = SearchIndex::new(BASE_URL, &pkg, Some(0), Some(0), None);
    assert_eq!(index.total_hits, 2);
    assert!(index.data.is_empty());
}

fn query(q: Option<&str>) -> SearchQuery {
    SearchQuery { q: q.map(|s| s.to_string()), skip: None, take: None, prerelease: None }
}

#[test]
fn search_without_query_lists_everything() {
    let pkg = vec![nuspec("Foo", "1.0.0"), nuspec("Bar", "1.0.0")];
    assert_eq!(get_search(BASE_URL, &pkg, &query(None)).total_hits, 2);
    assert_eq!(get_search(BASE_URL, &pkg, &query(Some(""))).total_hits, 2);
}

#[test]
fn search_matches_ids_fuzzily_ignoring_case() {
    let pkg = vec![
        nuspec("Newtonsoft.Json", "13.0.3"),
        nuspec("Serilog", "3.0.0"),
        nuspec("System.Text.Json", "8.0.0"),
    ];
    let index = get_search(BASE_URL, &pkg, &query(Some("JSON")));
    let ids: Vec<&str> = index.data.iter().map(|i| i.id.as_str()).collect();
    assert_eq!(ids, vec!["newtonsoft.json", "system.text.json"]);

    let index = get_search(BASE_URL, &pkg, &query(Some("srlg")));
    assert_eq!(index.data.len(), 1);
    assert_eq!(index.data[0].id, "serilog");
}

#[test]
fn search_with_no_match_is_empty() {
    let pkg = vec![nuspec("Foo", "1.0.0")];
    let index = get_search(BASE_URL, &pkg, &query(Some("oof")));
    assert_eq!(index.total_hits, 0);
    assert!(index.data.is_empty());
}

#[test]
fn search_passes_paging_and_prerelease_on() {
    let pkg = vec![nuspec("Foo", "1.0.0"), nuspec("Foo", "2.0.0-beta"), nuspec("Fob", "1.0.0")];
    let q = SearchQuery { q: Some("fo".to_string()), skip: Some(1), take: Some(1), prerelease: Some(true) };
    let index = get_search(BASE_URL, &pkg, &q);
    assert_eq!(index.total_hits, 2);
    assert_eq!(index.data.len(), 1);
    assert_eq!(index.data[0].id, "foo");
    assert_eq!(index.data[0].version, "2.0.0-beta");
}

#[test]
fn equal_versions_keep_their_order() {
    let pkg = vec![
        Nuspec { description: "first".to_string(), ..nuspec("Foo", "1.0") },
        Nuspec { description: "second".to_string(), ..nuspec("Foo", "1.0.0.0") },
    ];
    let index = SearchIndex::new(BASE_URL, &pkg, None, None, None);
    assert_eq!(index.data[0].description, "second");
    let versions: Vec<&str> = index.data[0].versions.iter().map(|v| v.version.as_str()).collect();
    assert_eq!(versions, vec!["1.0.0", "1.0.0"]);
}
