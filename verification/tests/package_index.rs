use nupkgd::nuget_version::NugetVersion;
use nupkgd::nuspec::Nuspec;
use nupkgd::package_index::PackageIndex;

#[test]
fn test_new_correct_order() {
    let pkg = vec![
        Nuspec { version: NugetVersion::parse("0.1.0").unwrap(), ..Nuspec::default() },
        Nuspec { version: NugetVersion::parse("1.1.0").unwrap(), ..Nuspec::default() },
        Nuspec { version: NugetVersion::parse("0.1.1").unwrap(), ..Nuspec::default() },
    ];
    let index = PackageIndex::new(&pkg);
    assert!(index.is_some());
    assert_eq!(index.unwrap().versions, vec!["1.1.0", "0.1.1", "0.1.0"]);
}

#[test]
fn test_new_with_none_returns_none() {
    let index = PackageIndex::new(&Vec::new());
    assert!(index.is_none());
}

#[test]
fn new_lists_prereleases_below_their_release() {
    let pkg = vec![
        Nuspec { version: NugetVersion::parse("2.0.0").unwrap(), ..Nuspec::default() },
        Nuspec { version: NugetVersion::parse("2.0.0-rc.1").unwrap(), ..Nuspec::default() },
        Nuspec { version: NugetVersion::parse("1.9.9").unwrap(), ..Nuspec::default() },
    ];
    let index = PackageIndex::new(&pkg).unwrap();
    assert_eq!(index.versions, vec!["2.0.0", "2.0.0-rc.1", "1.9.9"]);
}
