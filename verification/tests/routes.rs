use nupkgd::index::Index;
use nupkgd::nuspec::Nuspec;
use nupkgd::routes::{get_package, PackageResponse};

fn found() -> Option<Nuspec> {
    Some(Nuspec { file: "/feed/Foo.1.0.0.nupkg".to_string(), xml: "<package/>".to_string(), ..Default::default() })
}

#[test]
fn package_request_for_a_missing_version_is_not_found() {
    assert!(matches!(get_package(None, "foo", "1.0.0", "foo.nuspec"), PackageResponse::NotFound));
}

#[test]
fn package_request_for_the_nuspec_answers_its_xml() {
    match get_package(found(), "foo", "1.0.0", "foo.nuspec") {
        PackageResponse::Nuspec(xml) => assert_eq!(xml, "<package/>"),
        _ => panic!("expected the nuspec"),
    }
}

#[test]
fn package_request_for_the_nupkg_answers_the_file_as_an_attachment() {
    match get_package(found(), "Foo", "1.0.0", "foo.1.0.0.nupkg") {
        PackageResponse::Nupkg { path, file_name } => {
            assert_eq!(path, "/feed/Foo.1.0.0.nupkg");
            assert_eq!(file_name, "Foo.1.0.0.nupkg");
        },
        _ => panic!("expected the package file"),
    }
}

#[test]
fn package_request_for_another_file_is_a_bad_request() {
    assert!(matches!(get_package(found(), "foo", "1.0.0", "foo.zip"), PackageResponse::BadRequest));
}

#[test]
fn index_lists_the_services_under_the_base_url() {
    let index = Index::new("http://h");
    assert_eq!(index.version, "3.0.0");
    assert_eq!(index.resources.len(), 7);
    assert_eq!(index.resources[0].id, "http://h/v3/package/");
    assert_eq!(index.resources[0].resource_type, "PackageBaseAddress/3.0.0");
    assert_eq!(index.resources[3].id, "http://h/v3/search");
    assert_eq!(index.resources[6].resource_type, "SearchQueryService/3.0.0-beta");
}
