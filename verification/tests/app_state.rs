use nupkgd::app_state::{is_package_file_name, is_same_path, AppState, RequestHeaders};
use nupkgd::nuget_version::NugetVersion;
use nupkgd::nuspec::Nuspec;

fn state_with(files: &[&str]) -> AppState {
    let contents = files.iter().map(|f| Nuspec { file: f.to_string(), ..Default::default() }).collect();
    AppState { base_url: None, contents, base_dir: String::new(), recursive: false, windows_paths: false }
}

fn pkg(id: &str, version: &str) -> Nuspec {
    Nuspec {
        file: format!("{id}.{version}.nupkg"),
        id: id.to_string(),
        version: NugetVersion::parse(version).unwrap(),
        ..Default::default()
    }
}

fn state_with_packages(packages: Vec<Nuspec>) -> AppState {
    AppState { base_url: None, contents: packages, base_dir: String::new(), recursive: false, windows_paths: false }
}

fn no_headers() -> RequestHeaders {
    RequestHeaders { forwarded_proto: None, forwarded_host: None, host: None }
}

// --- remove_file / add_file ---

#[test]
fn remove_file_does_not_deadlock() {
    let mut state = state_with(&["a.nupkg", "b.nupkg"]);
    state.remove_file("a.nupkg");
    let remaining = state.get_contents();
    assert_eq!(remaining.len(), 1);
    assert_eq!(remaining[0].file, "b.nupkg");
}

#[test]
fn remove_file_ignores_unknown_paths() {
    let mut state = state_with(&["a.nupkg"]);
    state.remove_file("missing.nupkg");
    assert_eq!(state.get_contents().len(), 1);
}

#[test]
fn add_file_replaces_an_existing_entry_for_the_same_path() {
    let mut state = state_with(&[]);
    let item = Nuspec { file: "Other.Widget.0.1.0.nupkg".to_string(), id: "Other.Widget".to_string(), ..Default::default() };
    state.add_file(item.clone());
    state.add_file(item);
    let contents = state.get_contents();
    assert_eq!(contents.len(), 1);
    assert_eq!(contents[0].id, "Other.Widget");
}

#[test]
fn concurrent_add_file_calls_for_one_path_never_duplicate_it() {
    let mut state = state_with(&[]);
    for _ in 0..32 {
        state.add_file(Nuspec { file: "Other.Widget.0.1.0.nupkg".to_string(), ..Default::default() });
    }
    assert_eq!(state.get_contents().len(), 1);
}

#[test]
fn add_file_keeps_packages_of_other_files_in_order() {
    let mut state = state_with(&["a.nupkg", "b.nupkg", "c.nupkg"]);
    state.add_file(Nuspec { file: "b.nupkg".to_string(), id: "New".to_string(), ..Default::default() });
    let files: Vec<String> = state.get_contents().iter().map(|p| p.file.clone()).collect();
    assert_eq!(files, vec!["a.nupkg", "c.nupkg", "b.nupkg"]);
}

#[test]
fn get_contents_returns_a_snapshot_not_a_live_view() {
    let state = state_with(&["a.nupkg"]);
    let mut snapshot = state.get_contents();
    snapshot.clear();
    assert_eq!(state.get_contents().len(), 1);
}

#[test]
fn replace_contents_keeps_the_configuration() {
    let mut state = state_with(&["a.nupkg"]);
    state.base_url = Some("https://x".to_string());
    state.replace_contents(vec![pkg("B", "1.0.0"), pkg("C", "1.0.0")]);
    assert_eq!(state.get_contents().len(), 2);
    assert_eq!(state.base_url.as_deref(), Some("https://x"));
}

#[test]
fn scan_depth_follows_recursive() {
    let mut state = state_with(&[]);
    assert_eq!(state.scan_depth(), 1);
    state.recursive = true;
    assert_eq!(state.scan_depth(), usize::MAX);
}

#[test]
fn package_file_names_end_in_nupkg() {
    assert!(is_package_file_name("Foo.1.0.0.nupkg"));
    assert!(!is_package_file_name("Foo.1.0.0.nuspec"));
    assert!(!is_package_file_name("Foo.1.0.0.NUPKG"));
}

// --- resolve_base_url ---

#[test]
fn resolve_base_url_prefers_the_configured_value_over_headers() {
    let state = AppState {
        base_url: Some("https://feed.example.com/nuget".to_string()),
        contents: vec![],
        base_dir: String::new(),
        recursive: false,
        windows_paths: false,
    };
    let headers = RequestHeaders {
        host: Some("ignored:1234".to_string()),
        forwarded_host: Some("also-ignored".to_string()),
        forwarded_proto: Some("ftp".to_string()),
    };
    assert_eq!(state.resolve_base_url(&headers), "https://feed.example.com/nuget");
}

#[test]
fn resolve_base_url_strips_trailing_slashes_from_the_configured_value() {
    let state = AppState {
        base_url: Some("https://feed.example.com/nuget///".to_string()),
        contents: vec![],
        base_dir: String::new(),
        recursive: false,
        windows_paths: false,
    };
    assert_eq!(state.resolve_base_url(&no_headers()), "https://feed.example.com/nuget");
}

#[test]
fn resolve_base_url_falls_back_to_localhost_when_no_headers_are_present() {
    let state = state_with(&[]);
    assert_eq!(state.resolve_base_url(&no_headers()), "http://localhost:8080");
}

#[test]
fn resolve_base_url_uses_the_host_header() {
    let state = state_with(&[]);
    let headers = RequestHeaders { host: Some("nuget.internal:5555".to_string()), ..no_headers() };
    assert_eq!(state.resolve_base_url(&headers), "http://nuget.internal:5555");
}

#[test]
fn resolve_base_url_prefers_x_forwarded_host_over_host() {
    let state = state_with(&[]);
    let headers = RequestHeaders {
        host: Some("127.0.0.1:5555".to_string()),
        forwarded_host: Some("nuget.example.com".to_string()),
        ..no_headers()
    };
    assert_eq!(state.resolve_base_url(&headers), "http://nuget.example.com");
}

#[test]
fn resolve_base_url_uses_x_forwarded_proto_for_the_scheme() {
    let state = state_with(&[]);
    let headers = RequestHeaders {
        host: Some("nuget.example.com".to_string()),
        forwarded_proto: Some("https".to_string()),
        ..no_headers()
    };
    assert_eq!(state.resolve_base_url(&headers), "https://nuget.example.com");
}

#[test]
fn resolve_base_url_ignores_header_values_that_are_not_valid_strings() {
    // Header values that are not valid text reach the library as absent.
    let state = state_with(&[]);
    assert_eq!(state.resolve_base_url(&no_headers()), "http://localhost:8080");
}

// --- find_package ---

#[test]
fn find_package_returns_none_when_no_versions_match() {
    let state = state_with_packages(vec![pkg("Other.Widget", "0.1.0")]);
    assert!(state.find_package("Missing").is_none());
}

#[test]
fn find_package_returns_every_version_of_the_package() {
    let state = state_with_packages(vec![
        pkg("Test.Ex.Pkg", "1.3.1"),
        pkg("Other.Widget", "0.1.0"),
        pkg("Test.Ex.Pkg", "2.0.0-beta.1"),
    ]);
    let found = state.find_package("Test.Ex.Pkg").unwrap();
    let mut versions: Vec<_> = found.iter().map(|p| p.version.to_string()).collect();
    versions.sort();
    assert_eq!(versions, vec!["1.3.1", "2.0.0-beta.1"]);
    assert!(found.iter().all(|p| p.id == "Test.Ex.Pkg"));
}

#[test]
fn find_package_matches_ids_case_insensitively() {
    let state = state_with_packages(vec![pkg("Test.Ex.Pkg", "1.3.1")]);
    assert_eq!(state.find_package("test.ex.pkg").unwrap().len(), 1);
    assert_eq!(state.find_package("TEST.EX.PKG").unwrap().len(), 1);
}

// --- find_package_version ---

#[test]
fn find_package_version_returns_the_matching_package() {
    let state = state_with_packages(vec![pkg("Test.Ex.Pkg", "1.3.1"), pkg("Test.Ex.Pkg", "1.3.2")]);
    let found = state.find_package_version("Test.Ex.Pkg", "1.3.2").unwrap();
    assert_eq!(found.id, "Test.Ex.Pkg");
    assert_eq!(found.version.to_string(), "1.3.2");
}

#[test]
fn find_package_version_matches_ids_case_insensitively() {
    let state = state_with_packages(vec![pkg("Test.Ex.Pkg", "1.3.1")]);
    assert!(state.find_package_version("TEST.ex.PKG", "1.3.1").is_some());
}

#[test]
fn find_package_version_returns_none_for_an_unknown_version() {
    let state = state_with_packages(vec![pkg("Test.Ex.Pkg", "1.3.1")]);
    assert!(state.find_package_version("Test.Ex.Pkg", "9.9.9").is_none());
}

#[test]
fn find_package_version_does_not_match_the_version_of_a_different_package() {
    let state = state_with_packages(vec![pkg("Test.Ex.Pkg", "1.3.1"), pkg("Other.Widget", "0.1.0")]);
    assert!(state.find_package_version("Test.Ex.Pkg", "0.1.0").is_none());
}

#[test]
fn find_package_version_returns_none_for_an_unparseable_version() {
    let state = state_with_packages(vec![pkg("Test.Ex.Pkg", "1.3.1")]);
    for bad in ["", "not-a-version", "1.2.3.4.5", "1.0.0-"] {
        assert!(state.find_package_version("Test.Ex.Pkg", bad).is_none(), "expected {bad:?} to be rejected");
    }
}

#[test]
fn find_package_version_normalises_equivalent_version_strings() {
    let state = state_with_packages(vec![pkg("Test.Ex.Pkg", "1.3.1")]);
    for equivalent in ["1.3.1.0", "1.3.1+build.7", "1.3.01"] {
        assert!(
            state.find_package_version("Test.Ex.Pkg", equivalent).is_some(),
            "expected {equivalent:?} to resolve to 1.3.1"
        );
    }
}

#[test]
fn find_package_version_distinguishes_prerelease_from_release() {
    let state = state_with_packages(vec![pkg("Test.Ex.Pkg", "2.0.0-beta.1")]);
    assert!(state.find_package_version("Test.Ex.Pkg", "2.0.0").is_none());
    assert!(state.find_package_version("Test.Ex.Pkg", "2.0.0-BETA.1").is_some());
}

#[test]
fn a_recorded_package_is_found_by_its_id() {
    let mut state = state_with_packages(vec![pkg("Foo", "1.0.0"), pkg("Bar", "1.0.0")]);
    let item = Nuspec { file: "new.nupkg".to_string(), ..pkg("FOO", "2.0.0") };
    state.add_file(item);
    let found = state.find_package("foo").unwrap();
    assert_eq!(found.len(), 2);
    assert_eq!(found[1].version.to_string(), "2.0.0");
    assert_eq!(found[1].file, "new.nupkg");
}

#[test]
fn paths_are_compared_by_components() {
    assert!(is_same_path("pkgs/./A.nupkg", "pkgs/A.nupkg", false));
    assert!(is_same_path("a//b", "a/b", false));
    assert!(is_same_path("/feed/A.nupkg/", "/feed/A.nupkg", false));
    assert!(!is_same_path("/feed/A.nupkg", "feed/A.nupkg", false));
    assert!(!is_same_path("./A.nupkg", "A.nupkg", false));
    assert!(!is_same_path("a/../b", "b", false));
    assert!(!is_same_path("a/b", "a/c", false));
}

#[test]
fn remove_file_forgets_every_spelling_of_the_path() {
    let mut state = state_with(&["pkgs/A.nupkg", "pkgs//A.nupkg", "pkgs/B.nupkg"]);
    state.remove_file("pkgs/./A.nupkg");
    let files: Vec<String> = state.get_contents().iter().map(|p| p.file.clone()).collect();
    assert_eq!(files, vec!["pkgs/B.nupkg"]);
}

#[test]
fn windows_paths_compare_separators_and_drive_letters_alike() {
    assert!(is_same_path("C:\\feed\\a.nupkg", "C:/feed/a.nupkg", true));
    assert!(is_same_path("c:\\feed\\.\\a.nupkg", "C:\\feed\\a.nupkg", true));
    assert!(!is_same_path("C:feed\\a.nupkg", "C:\\feed\\a.nupkg", true));
    assert!(!is_same_path("C:\\feed\\a.nupkg", "D:\\feed\\a.nupkg", true));
    assert!(!is_same_path("C:\\feed\\a.nupkg", "C:/feed/a.nupkg", false));
}

#[test]
fn remove_file_on_windows_forgets_both_spellings() {
    let mut state = state_with(&["C:\\feed\\a.nupkg", "C:/feed/b.nupkg"]);
    state.windows_paths = true;
    state.remove_file("c:/feed/a.nupkg");
    let files: Vec<String> = state.get_contents().iter().map(|p| p.file.clone()).collect();
    assert_eq!(files, vec!["C:/feed/b.nupkg"]);
}
