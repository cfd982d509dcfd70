use nupkgd::nuget_version::{NugetVersion, VersionError};
use std::cmp::Ordering;

fn v(s: &str) -> NugetVersion {
    NugetVersion::parse(s).unwrap()
}

#[test]
fn parse_reports_each_kind_of_error() {
    assert_eq!(NugetVersion::parse("1.x").unwrap_err(), VersionError::InvalidComponent);
    assert_eq!(NugetVersion::parse("").unwrap_err(), VersionError::InvalidComponent);
    assert_eq!(NugetVersion::parse("1.2.3.4.5").unwrap_err(), VersionError::TooManyComponents);
    assert_eq!(NugetVersion::parse("1.0.0-a_b").unwrap_err(), VersionError::InvalidPrerelease);
    assert_eq!(NugetVersion::parse("1.0.0+").unwrap_err(), VersionError::InvalidMetadata);
}

#[test]
fn parse_lowercases_labels() {
    let version = v("1.0.0-RC.1+Build.7");
    assert_eq!(version.prerelease.as_deref(), Some("rc.1"));
    assert_eq!(version.metadata.as_deref(), Some("build.7"));
}

#[test]
fn ordering_is_antisymmetric_on_examples() {
    let pairs = [("1.0.0", "1.0.1"), ("1.0.0-alpha", "1.0.0"), ("1.0.0-beta.2", "1.0.0-beta.11")];
    for (a, b) in pairs {
        assert_eq!(v(a).cmp(&v(b)), Ordering::Less);
        assert_eq!(v(b).cmp(&v(a)), Ordering::Greater);
    }
}

#[test]
fn ordering_is_transitive_on_examples() {
    let (a, b, c) = (v("1.0.0-alpha"), v("1.0.0-alpha.1"), v("1.0.0"));
    assert!(a < b && b < c);
    assert!(a < c);
}

#[test]
fn ordering_is_reflexive_on_examples() {
    for s in ["0.0.0", "1.0.0-rc.1", "4.3.2.1+meta"] {
        assert_eq!(v(s).cmp(&v(s)), Ordering::Equal);
    }
}

#[test]
fn metadata_plays_no_part_in_equality() {
    assert_eq!(v("2.1.0+one"), v("2.1.0"));
    assert_eq!(v("2.1.0+one").cmp(&v("2.1.0+two")), Ordering::Equal);
}

#[test]
fn numeric_identifiers_sort_before_alphanumeric_ones() {
    assert!(v("1.0.0-1") < v("1.0.0-a"));
    assert!(v("1.0.0-2") < v("1.0.0-10"));
}

#[test]
fn display_then_parse_gives_an_equal_version() {
    for s in ["3.0.0.7-rc.2+x", "0.0.1", "10.20.30"] {
        let version = v(s);
        let again = v(&version.to_string());
        assert_eq!(again, version);
        assert_eq!(again.to_string(), version.to_string());
    }
}

#[test]
fn parsing_ignores_label_case() {
    assert_eq!(v("1.0.0-ALPHA").to_string(), v("1.0.0-alpha").to_string());
}

#[test]
fn from_str_and_parse_agree() {
    let a: NugetVersion = "5.4.3-x".parse().unwrap();
    assert_eq!(a, v("5.4.3-x"));
}
