use nupkgd::handlers::version;
use nupkgd::html_index::{escape, render};
use nupkgd::nuget_version::NugetVersion;
use nupkgd::nuspec::Nuspec;

/// The metadata of the feed's sample packages, as reading them gives it.
fn fixture(name: &str) -> Nuspec {
    let (id, version) = match name {
        "Other.Widget.0.1.0.nupkg" => ("Other.Widget", "0.1.0"),
        "Solo.Prerelease.0.9.0-rc.1.nupkg" => ("Solo.Prerelease", "0.9.0-rc.1"),
        "Test.Ex.Pkg.2.0.0-beta.1.nupkg" => ("Test.Ex.Pkg", "2.0.0-beta.1"),
        "recursive/Test.Ex.Pkg.1.3.1.nupkg" => ("Test.Ex.Pkg", "1.3.1"),
        "recursive/Test.Ex.Pkg.1.3.2.nupkg" => ("Test.Ex.Pkg", "1.3.2"),
        "recursive/Test.Ex.Pkg.1.3.3.nupkg" => ("Test.Ex.Pkg", "1.3.3"),
        "recursive/Test.Ex.Pkg.1.3.4.nupkg" => ("Test.Ex.Pkg", "1.3.4"),
        _ => panic!("no fixture {name}"),
    };
    let mut pkg = Nuspec {
        file: format!("tempest/fixtures/{name}"),
        id: id.to_string(),
        version: NugetVersion::parse(version).unwrap(),
        ..Default::default()
    };
    if id == "Other.Widget" {
        pkg.description = "A widget with every metadata field the feed exposes.".to_string();
        pkg.authors = "Alice, Bob".to_string();
        pkg.tags = vec!["widgets".to_string(), "tools".to_string()];
    } else if id == "Test.Ex.Pkg" {
        pkg.authors = "test.ex.pkg".to_string();
        pkg.tags = vec!["sdk".to_string()];
    }
    pkg
}

fn fixtures() -> Vec<Nuspec> {
    [
        "Other.Widget.0.1.0.nupkg",
        "Solo.Prerelease.0.9.0-rc.1.nupkg",
        "Test.Ex.Pkg.2.0.0-beta.1.nupkg",
        "recursive/Test.Ex.Pkg.1.3.1.nupkg",
        "recursive/Test.Ex.Pkg.1.3.2.nupkg",
        "recursive/Test.Ex.Pkg.1.3.3.nupkg",
        "recursive/Test.Ex.Pkg.1.3.4.nupkg",
    ]
    .iter()
    .map(|n| fixture(n))
    .collect()
}

const BASE: &str = "http://feed.example.com";

#[test]
fn escape_replaces_html_special_characters() {
    assert_eq!(escape("a & b < c > d \" e ' f"), "a &amp; b &lt; c &gt; d &quot; e &#39; f");
    assert_eq!(escape("plain"), "plain");
}

#[test]
fn empty_feed_renders_a_placeholder() {
    let html = render(BASE, &[]);
    assert!(html.contains("<p><i>No packages found.</i></p>"));
    assert!(!html.contains("<h2>"));
    assert!(html.contains("0 packages, 0 files"));
}

#[test]
fn renders_as_html_document_with_title() {
    let html = render(BASE, &fixtures());
    assert!(html.starts_with("<html><head><title>nupkgd</title></head><body>"));
    assert!(html.trim_end().ends_with("</body></html>"));
    assert!(html.contains("<h1>Index of nupkgd</h1>"));
}

#[test]
fn packages_are_listed_alphabetically_by_id() {
    let html = render(BASE, &fixtures());
    let other = html.find("<h2>Other.Widget</h2>").unwrap();
    let solo = html.find("<h2>Solo.Prerelease</h2>").unwrap();
    let test = html.find("<h2>Test.Ex.Pkg</h2>").unwrap();
    assert!(other < solo && solo < test);
    assert_eq!(html.matches("<h2>").count(), 3);
}

#[test]
fn versions_are_listed_newest_first() {
    let html = render(BASE, &fixtures());
    let pos = |v: &str| html.find(&format!(">{v}</a>")).unwrap();
    assert!(pos("2.0.0-beta.1") < pos("1.3.4"));
    assert!(pos("1.3.4") < pos("1.3.3"));
    assert!(pos("1.3.3") < pos("1.3.2"));
    assert!(pos("1.3.2") < pos("1.3.1"));
}

#[test]
fn latest_is_highest_stable_version_not_prerelease() {
    let html = render(BASE, &fixtures());
    assert!(html.contains(">1.3.4</a> (latest)</li>"));
    assert!(html.contains(">2.0.0-beta.1</a> (prerelease)</li>"));
    assert!(!html.contains(">2.0.0-beta.1</a> (latest)"));
}

#[test]
fn prerelease_only_package_marks_its_prerelease_as_latest() {
    let html = render(BASE, &fixtures());
    assert!(html.contains(">0.9.0-rc.1</a> (latest) (prerelease)</li>"));
}

#[test]
fn version_links_point_at_nupkg_download_with_lowercase_id() {
    let html = render(BASE, &fixtures());
    assert!(html.contains(
        "<a href=\"http://feed.example.com/v3/package/test.ex.pkg/1.3.4/test.ex.pkg.1.3.4.nupkg\">1.3.4</a>"
    ));
    assert!(html.contains(
        "<a href=\"http://feed.example.com/v3/package/other.widget/0.1.0/other.widget.0.1.0.nupkg\">0.1.0</a>"
    ));
}

#[test]
fn shows_description_authors_and_tags() {
    let html = render(BASE, &fixtures());
    assert!(html.contains("A widget with every metadata field the feed exposes.<br><i>Alice, Bob</i><br>Tags: widgets tools</p>"));
}

#[test]
fn footer_counts_packages_and_files() {
    let html = render(BASE, &fixtures());
    assert!(html.contains(&format!("<address>nupkgd/{} &mdash; 3 packages, 7 files</address>", version())));
}

#[test]
fn footer_uses_singular_for_one() {
    let html = render(BASE, &[fixture("Other.Widget.0.1.0.nupkg")]);
    assert!(html.contains("1 package, 1 file</address>"));
}

#[test]
fn omits_tags_line_when_there_are_none() {
    let mut pkg = fixture("Other.Widget.0.1.0.nupkg");
    pkg.tags.clear();
    let html = render(BASE, &[pkg]);
    assert!(!html.contains("Tags:"));
}

#[test]
fn user_supplied_text_is_escaped() {
    let pkg = Nuspec {
        id: "Evil<Pkg>".to_string(),
        description: "<script>alert(1)</script>".to_string(),
        authors: "Mallory & Co".to_string(),
        tags: vec!["\"quoted\"".to_string()],
        version: NugetVersion::parse("1.0.0").unwrap(),
        ..Default::default()
    };
    let html = render(BASE, &[pkg]);
    assert!(!html.contains("<script>"));
    assert!(html.contains("<h2>Evil&lt;Pkg&gt;</h2>"));
    assert!(html.contains("&lt;script&gt;alert(1)&lt;/script&gt;"));
    assert!(html.contains("Mallory &amp; Co"));
    assert!(html.contains("Tags: &quot;quoted&quot;"));
    assert!(html.contains("/v3/package/evil&lt;pkg&gt;/1.0.0/"));
}

#[test]
fn escaped_text_has_no_markup_characters() {
    let out = escape("<a href='x'>\"&\"</a>");
    assert!(!out.contains('<') && !out.contains('>') && !out.contains('"') && !out.contains('\''));
    assert_eq!(out, "&lt;a href=&#39;x&#39;&gt;&quot;&amp;&quot;&lt;/a&gt;");
}

#[test]
fn whole_page_for_one_package() {
    let pkg = Nuspec {
        id: "Foo".to_string(),
        description: "d".to_string(),
        authors: "a".to_string(),
        version: NugetVersion::parse("1.0.0").unwrap(),
        ..Default::default()
    };
    let html = render("http://h", &[pkg]);
    let expected = format!(
        "<html><head><title>nupkgd</title></head><body>\n<h1>Index of nupkgd</h1>\n<hr>\n\
         <h2>Foo</h2>\n<p>d<br><i>a</i></p>\n<ul>\n\
         <li><a href=\"http://h/v3/package/foo/1.0.0/foo.1.0.0.nupkg\">1.0.0</a> (latest)</li>\n\
         </ul>\n<hr>\n<address>nupkgd/{} &mdash; 1 package, 1 file</address>\n</body></html>\n",
        version()
    );
    assert_eq!(html, expected);
}

#[test]
fn version_is_the_server_version() {
    assert_eq!(version(), "0.1.0");
}
