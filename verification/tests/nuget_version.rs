use nupkgd::nuget_version::NugetVersion;
use std::cmp::Ordering;

fn assert_version(
    version: NugetVersion,
    major: u32,
    minor: u32,
    patch: u32,
    revision: u32,
    prerelease: Option<String>,
    metadata: Option<String>,
) {
    assert_eq!(version.major, major);
    assert_eq!(version.minor, minor);
    assert_eq!(version.patch, patch);
    assert_eq!(version.revision, revision);
    assert_eq!(version.prerelease, prerelease);
    assert_eq!(version.metadata, metadata);
}

#[test]
fn test_parse_no_minor() {
    let parse = "1";
    let version = NugetVersion::parse(parse).unwrap();
    assert_version(version, 1, 0, 0, 0, None, None);
}

#[test]
fn test_parse_no_patch() {
    let parse = "1.2";
    let version = NugetVersion::parse(parse).unwrap();
    assert_version(version, 1, 2, 0, 0, None, None);
}

#[test]
fn test_parse_no_revision() {
    let parse = "1.2.3";
    let version = NugetVersion::parse(parse).unwrap();
    assert_version(version, 1, 2, 3, 0, None, None);
}

#[test]
fn test_parse_with_revision() {
    let parse = "1.2.3.4";
    let version = NugetVersion::parse(parse).unwrap();
    assert_version(version, 1, 2, 3, 4, None, None);
}

#[test]
fn test_parse_with_leading_zeroes() {
    let parse = "01.02.03.04";
    let version = NugetVersion::parse(parse).unwrap();
    assert_version(version, 1, 2, 3, 4, None, None);
}

#[test]
fn test_parse_with_metadata() {
    let parse = "1.2.3+meta123";
    let version = NugetVersion::parse(parse).unwrap();
    assert_version(version, 1, 2, 3, 0, None, Some("meta123".to_string()));
}

#[test]
fn test_parse_with_prerelease() {
    let parse = "1.2.3-prerelease";
    let version = NugetVersion::parse(parse).unwrap();
    assert_version(version, 1, 2, 3, 0, Some("prerelease".to_string()), None);
}

#[test]
fn test_parse_with_prerelease_and_metadata() {
    let parse = "1.2.3-prerelease+meta123";
    let version = NugetVersion::parse(parse).unwrap();
    assert_version(version, 1, 2, 3, 0, Some("prerelease".to_string()), Some("meta123".to_string()));
}

#[test]
fn test_parse_too_many_prereleases() {
    let parse = "1.2.3-prerelease-meta123";
    let version = NugetVersion::parse(parse).unwrap();
    assert_version(version, 1, 2, 3, 0, Some("prerelease-meta123".to_string()), None);
}

#[test]
fn test_parse_too_many_metadata() {
    let parse = "1.2.3+prerelease+meta123";
    let version = NugetVersion::parse(parse);
    assert!(version.is_err());
}

#[test]
fn test_parse_too_many_sections() {
    let parse = "1.2.3.4.5";
    let version = NugetVersion::parse(parse);
    assert!(version.is_err());
}

#[test]
fn test_parse_oops_all_letters() {
    let parse = "abc";
    let version = NugetVersion::parse(parse);
    assert!(version.is_err());
}

#[test]
fn test_parse_empty_minor() {
    let parse = "1..3";
    let version = NugetVersion::parse(parse);
    assert!(version.is_err());
}

#[test]
fn test_parse_empty_prerelease() {
    let parse = "1.2.3-";
    let version = NugetVersion::parse(parse);
    assert!(version.is_err());
}

#[test]
fn test_parse_empty_metadata() {
    let parse = "1.2.3+";
    let version = NugetVersion::parse(parse);
    assert!(version.is_err());
}

#[test]
fn test_parse_empty_fails() {
    let parse = "";
    let version = NugetVersion::parse(parse);
    assert!(version.is_err());
}

#[test]
fn test_parse_overflow_fails() {
    let parse = "1.2.3.99999999999";
    let version = NugetVersion::parse(parse);
    assert!(version.is_err());
}

#[test]
fn test_to_string_major() {
    let parse = "1";
    let result = "1.0.0";
    let version = NugetVersion::parse(parse).unwrap();
    assert_eq!(version.to_string(), result);
}

#[test]
fn test_to_string_minor() {
    let parse = "1.2";
    let result = "1.2.0";
    let version = NugetVersion::parse(parse).unwrap();
    assert_eq!(version.to_string(), result);
}

#[test]
fn test_to_string_patch() {
    let parse = "1.2.3";
    let result = "1.2.3";
    let version = NugetVersion::parse(parse).unwrap();
    assert_eq!(version.to_string(), result);
}

#[test]
fn test_to_string_revision() {
    let parse = "1.2.3.4";
    let result = "1.2.3.4";
    let version = NugetVersion::parse(parse).unwrap();
    assert_eq!(version.to_string(), result);
}

#[test]
fn test_to_string_prerelease() {
    let parse = "1.2.3.4-prerelease";
    let result = "1.2.3.4-prerelease";
    let version = NugetVersion::parse(parse).unwrap();
    assert_eq!(version.to_string(), result);
}

#[test]
fn test_to_string_metadata() {
    let parse = "1.2.3.4+meta123";
    let result = "1.2.3.4";
    let version = NugetVersion::parse(parse).unwrap();
    assert_eq!(version.to_string(), result);
}

#[test]
fn test_to_string_prerelease_and_metadata() {
    let parse = "1.2.3.4-prerelease+meta123";
    let result = "1.2.3.4-prerelease";
    let version = NugetVersion::parse(parse).unwrap();
    assert_eq!(version.to_string(), result);
}

#[test]
fn test_to_string_metadata_no_revision() {
    let parse = "1.2.3+meta123";
    let result = "1.2.3";
    let version = NugetVersion::parse(parse).unwrap();
    assert_eq!(version.to_string(), result);
}

#[test]
fn test_to_string_metadata_no_patch() {
    let parse = "1.2+meta123";
    let result = "1.2.0";
    let version = NugetVersion::parse(parse).unwrap();
    assert_eq!(version.to_string(), result);
}

#[test]
fn test_to_string_metadata_no_minor() {
    let parse = "1+meta123";
    let result = "1.0.0";
    let version = NugetVersion::parse(parse).unwrap();
    assert_eq!(version.to_string(), result);
}

#[test]
fn test_to_string_prerelease_and_metadata_leading_zeroes() {
    let parse = "01.02.03.04-prerelease+meta123";
    let result = "1.2.3.4-prerelease";
    let version = NugetVersion::parse(parse).unwrap();
    assert_eq!(version.to_string(), result);
}

#[test]
fn test_to_string_prerelease_and_metadata_with_version_parts() {
    let parse = "1.2.3.4-beta.1+build.5";
    let result = "1.2.3.4-beta.1";
    let version = NugetVersion::parse(parse).unwrap();
    assert_eq!(version.to_string(), result);
}

#[test]
fn test_to_string_prerelease_with_version_parts() {
    let parse = "9.0.0-Preview.1.24080.9";
    let result = "9.0.0-preview.1.24080.9";
    let version = NugetVersion::parse(parse).unwrap();
    assert_eq!(version.to_string(), result);
}

#[test]
fn test_to_string_long_patch() {
    let version = "1.0.20240903".parse::<NugetVersion>().unwrap();
    let result = "1.0.20240903";
    assert_eq!(version.to_string(), result);
}

#[test]
fn test_to_string_drops_zero_revision() {
    assert_eq!(NugetVersion::parse("1.2.3.0").unwrap().to_string(), "1.2.3");
}

#[test]
fn test_equivalent_forms_are_equal() {
    let a = NugetVersion::parse("1.0").unwrap();
    let b = NugetVersion::parse("1.0.0.0").unwrap();
    assert_eq!(a, b);
}

#[test]
fn test_parse_component_overflow() {
    assert!(NugetVersion::parse("1.2.3.99999999999").is_err());
}

#[test]
fn test_parse_invalid_label_chars() {
    assert!(NugetVersion::parse("1.0.0-beta_1").is_err());
    assert!(NugetVersion::parse("1.0.0-beta..1").is_err());
    assert!(NugetVersion::parse("1.0.0+build-1").is_ok());
}

#[test]
fn test_round_trip() {
    for s in ["1.0.0", "1.2.3.4", "1.0.0-beta.1", "9.0.0-preview.1.24080.9"] {
        let v = NugetVersion::parse(s).unwrap();
        assert_eq!(NugetVersion::parse(&v.to_string()).unwrap(), v);
    }
}

#[test]
fn test_ordering_semver_precedence_chain() {
    let ordered = [
        "1.0.0-alpha", "1.0.0-alpha.1", "1.0.0-alpha.beta", "1.0.0-beta",
        "1.0.0-beta.2", "1.0.0-beta.11", "1.0.0-rc.1", "1.0.0", "1.0.0.1", "1.0.1",
    ];
    let versions: Vec<_> = ordered.iter().map(|s| NugetVersion::parse(s).unwrap()).collect();
    for pair in versions.windows(2) {
        assert!(
            pair[0] < pair[1],
            "{} should sort before {}",
            pair[0].to_string(),
            pair[1].to_string()
        );
    }
}

#[test]
fn test_ordering_ignores_metadata_and_case() {
    assert_eq!(NugetVersion::parse("1.0.0+a").unwrap(), NugetVersion::parse("1.0.0+b").unwrap());
    assert_eq!(NugetVersion::parse("1.0.0-BETA").unwrap(), NugetVersion::parse("1.0.0-beta").unwrap());
}

#[test]
fn test_ordering_consistent_with_equality() {
    let inputs = ["1.0.0", "1.0.0+x", "1.0.0-beta", "1.0.0-Beta", "1.0.0-beta.1", "1.0.0.0"];
    let versions: Vec<_> = inputs.iter().map(|s| NugetVersion::parse(s).unwrap()).collect();
    for a in &versions {
        for b in &versions {
            assert_eq!(a == b, a.cmp(b) == Ordering::Equal, "{} vs {}", a.to_string(), b.to_string());
        }
    }
}
