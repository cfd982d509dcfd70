use nupkgd::dependency_group::{Dependency, DependencyGroup};
use nupkgd::nuget_version::NugetVersion;
use nupkgd::nuspec::Nuspec;
use nupkgd::registration_index::RegistrationIndex;
use nupkgd::routes::get_registration_version;

const BASE_URL: &str = "http://localhost:5555";

fn nuspec(id: &str, version: &str) -> Nuspec {
    Nuspec {
        id: id.to_string(),
        version: NugetVersion::parse(version).unwrap(),
        description: format!("{id} {version}"),
        authors: "Matthew Andrews".to_string(),
        tags: vec!["tag".to_string()],
        published: 1_700_000_000,
        ..Nuspec::default()
    }
}

#[test]
fn test_new_with_empty_returns_none() {
    assert!(RegistrationIndex::new(BASE_URL, "foo", &[]).is_none());
}

#[test]
fn test_new_builds_single_page_index() {
    let pkg = vec![nuspec("Foo", "1.0.0")];
    let index = RegistrationIndex::new(BASE_URL, "foo", &pkg).unwrap();
    assert_eq!(index.at_id, "http://localhost:5555/v3/registration/foo/index.json");
    assert_eq!(index.count, 1);
    assert_eq!(index.items.len(), 1);
}

#[test]
fn test_page_bounds_use_sorted_versions() {
    let pkg = vec![
        nuspec("Foo", "1.1.0"),
        nuspec("Foo", "0.1.0"),
        nuspec("Foo", "2.0.0-beta"),
        nuspec("Foo", "0.1.1"),
    ];
    let index = RegistrationIndex::new(BASE_URL, "foo", &pkg).unwrap();
    let page = &index.items[0];
    assert_eq!(page.lower, "0.1.0");
    assert_eq!(page.upper, "2.0.0-beta");
    assert_eq!(page.count, 4);
    assert_eq!(page.items.len(), 4);
    assert_eq!(page.at_id, "http://localhost:5555/v3/registration/foo/index.json#page/0.1.0/2.0.0-beta");
}

#[test]
fn test_page_bounds_with_single_version_are_equal() {
    let pkg = vec![nuspec("Foo", "3.2.1")];
    let index = RegistrationIndex::new(BASE_URL, "foo", &pkg).unwrap();
    let page = &index.items[0];
    assert_eq!(page.lower, "3.2.1");
    assert_eq!(page.upper, "3.2.1");
    assert_eq!(page.at_id, "http://localhost:5555/v3/registration/foo/index.json#page/3.2.1/3.2.1");
}

#[test]
fn test_version_urls_use_requested_package_id() {
    let pkg = vec![nuspec("Foo.Bar", "1.2.3")];
    let index = RegistrationIndex::new(BASE_URL, "foo.bar", &pkg).unwrap();
    let version = &index.items[0].items[0];
    assert_eq!(version.at_id, "http://localhost:5555/v3/registration/foo.bar/1.2.3.json");
    assert_eq!(version.package_content, "http://localhost:5555/v3/package/foo.bar/1.2.3/foo.bar.1.2.3.nupkg");
    assert_eq!(version.catalog_entry.at_id, version.at_id);
    assert_eq!(version.catalog_entry.package_content, version.package_content);
}

#[test]
fn test_catalog_entry_copies_nuspec_metadata() {
    let mut n = nuspec("Foo.Bar", "1.2.3");
    n.project_url = Some("https://example.com/project".to_string());
    n.license_url = Some("https://licenses.nuget.org/MIT".to_string());
    n.require_license_acceptance = true;
    n.dependency_groups = vec![DependencyGroup {
        target_framework: Some("net10.0".to_string()),
        dependencies: vec![Dependency { id: "Dep".to_string(), range: "2.0.0".to_string() }],
    }];

    let index = RegistrationIndex::new(BASE_URL, "foo.bar", &[n]).unwrap();
    let entry = &index.items[0].items[0].catalog_entry;
    assert_eq!(entry.id, "Foo.Bar", "catalog id should keep original nuspec casing");
    assert_eq!(entry.version, "1.2.3");
    assert_eq!(entry.description, "Foo.Bar 1.2.3");
    assert_eq!(entry.authors, "Matthew Andrews");
    assert_eq!(entry.tags, vec!["tag"]);
    assert!(entry.listed);
    assert_eq!(entry.published, "1700000000");
    assert_eq!(entry.project_url, "https://example.com/project");
    assert_eq!(entry.license_url, "https://licenses.nuget.org/MIT");
    assert!(entry.require_license_acceptance);
    assert_eq!(entry.dependency_groups.len(), 1);
    assert_eq!(entry.dependency_groups[0].target_framework.as_deref(), Some("net10.0"));
    assert_eq!(entry.dependency_groups[0].dependencies[0].id, "Dep");
    assert_eq!(entry.dependency_groups[0].dependencies[0].range, "2.0.0");
}

#[test]
fn test_catalog_entry_defaults_missing_urls_to_empty() {
    let pkg = vec![nuspec("Foo", "1.0.0")];
    let index = RegistrationIndex::new(BASE_URL, "foo", &pkg).unwrap();
    let entry = &index.items[0].items[0].catalog_entry;
    assert_eq!(entry.project_url, "");
    assert_eq!(entry.license_url, "");
    assert!(!entry.require_license_acceptance);
    assert!(entry.dependency_groups.is_empty());
}

#[test]
fn catalog_entry_spells_negative_times_with_a_sign() {
    let mut n = nuspec("Foo", "1.0.0");
    n.published = -42;
    let index = RegistrationIndex::new(BASE_URL, "foo", &[n]).unwrap();
    assert_eq!(index.items[0].items[0].catalog_entry.published, "-42");
}

#[test]
fn registration_version_finds_the_requested_version() {
    let pkg = vec![nuspec("Foo", "1.0.0"), nuspec("Foo", "1.1.0")];
    let found = get_registration_version(BASE_URL, "foo", &pkg, "1.1.0.json").unwrap();
    assert_eq!(found.catalog_entry.version, "1.1.0");
    assert_eq!(found.at_id, "http://localhost:5555/v3/registration/foo/1.1.0.json");
}

#[test]
fn registration_version_normalises_the_requested_version() {
    let pkg = vec![nuspec("Foo", "1.2.0"), nuspec("Foo", "2.0.0-beta")];
    assert!(get_registration_version(BASE_URL, "foo", &pkg, "1.2").is_some());
    assert!(get_registration_version(BASE_URL, "foo", &pkg, "1.2.0.0.json.json").is_some());
    assert!(get_registration_version(BASE_URL, "foo", &pkg, "2.0.0-BETA.json").is_some());
}

#[test]
fn registration_version_is_none_for_unknown_or_bad_versions() {
    let pkg = vec![nuspec("Foo", "1.0.0")];
    assert!(get_registration_version(BASE_URL, "foo", &pkg, "9.9.9.json").is_none());
    assert!(get_registration_version(BASE_URL, "foo", &pkg, "latest.json").is_none());
    assert!(get_registration_version(BASE_URL, "foo", &[], "1.0.0.json").is_none());
}
