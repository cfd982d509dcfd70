//! The package index as a plain HTML page: no CSS, no JS, just the tags a 1998 browser
//! would understand.
use vstd::prelude::*;
use crate::app_state::packages_view;
use crate::grouping::{group_by_id, groups_of_view, grouping, is_grouping};
use crate::handlers::{server_version, version};
use crate::nuget_version::{
    NugetVersionView, display, law_order_antisymmetric, law_order_reflexive, version_order,
};
use crate::nuspec::{Nuspec, NuspecView};
use crate::seqs::{first_where, lemma_first_where, lemma_first_where_at, lemma_first_where_none};
use crate::package_index::versions_of;
use crate::sort::{law_sorted_packages_ordered, law_stable_sort_exists, sort_packages, sorted_packages, stable_order};
use crate::text::{chars_of, decimal, push_char, push_decimal, push_str};

verus! {

/// `s` with the characters that mean something in HTML replaced by entities:
/// `&`, `<`, `>`, `"` and `'`.
pub open spec fn escaped(s: Seq<char>) -> Seq<char>
    decreases s.len(),
{
    if s.len() == 0 {
        Seq::<char>::empty()
    } else {
        let pre = escaped(s.drop_last());
        let c = s.last();
        if c == '&' {
            pre + "&amp;"@
        } else if c == '<' {
            pre + "&lt;"@
        } else if c == '>' {
            pre + "&gt;"@
        } else if c == '"' {
            pre + "&quot;"@
        } else if c == '\'' {
            pre + "&#39;"@
        } else {
            pre.push(c)
        }
    }
}

/// The character means something in HTML text or attributes.
pub open spec fn is_markup(c: char) -> bool {
    c == '&' || c == '<' || c == '>' || c == '"' || c == '\''
}

/// Escaped text holds no `<`, `>`, `"` or `'`, so no user text can open a tag or close
/// an attribute.
pub proof fn law_escape_removes_markup(s: Seq<char>)
    ensures
        forall|i: int|
            0 <= i < escaped(s).len() ==> {
                let c = #[trigger] escaped(s)[i];
                c != '<' && c != '>' && c != '"' && c != '\''
            },
    decreases s.len(),
{
    reveal_strlit("&amp;");
    reveal_strlit("&lt;");
    reveal_strlit("&gt;");
    reveal_strlit("&quot;");
    reveal_strlit("&#39;");
    if s.len() > 0 {
        law_escape_removes_markup(s.drop_last());
        let pre = escaped(s.drop_last());
        assert forall|i: int| 0 <= i < escaped(s).len() implies {
            let c = #[trigger] escaped(s)[i];
            c != '<' && c != '>' && c != '"' && c != '\''
        } by {
            if i < pre.len() {
                assert(escaped(s)[i] == pre[i]);
            }
        }
    }
}

/// Text without any character that means something in HTML is left as it is.
pub proof fn law_escape_plain_text_unchanged(s: Seq<char>)
    requires
        forall|i: int| 0 <= i < s.len() ==> !is_markup(#[trigger] s[i]),
    ensures
        escaped(s) == s,
    decreases s.len(),
{
    if s.len() > 0 {
        law_escape_plain_text_unchanged(s.drop_last());
        assert(s.drop_last().push(s.last()) =~= s);
    }
}

/// `word`, with an `s` unless `n` is one.
pub open spec fn plural_of(n: nat, word: Seq<char>) -> Seq<char> {
    if n == 1 {
        word
    } else {
        word + "s"@
    }
}

/// The texts joined with `sep` between each two.
pub open spec fn joined(ts: Seq<Seq<char>>, sep: Seq<char>) -> Seq<char>
    decreases ts.len(),
{
    if ts.len() == 0 {
        Seq::<char>::empty()
    } else if ts.len() == 1 {
        ts[0]
    } else {
        joined(ts.drop_last(), sep) + sep + ts.last()
    }
}

/// The package has a release version (no prerelease label).
pub open spec fn release_pred() -> spec_fn(NuspecView) -> bool {
    |p: NuspecView| p.version.prerelease is None
}

/// Where the latest of versions sorted newest first is: the first release, or the
/// first of all when there is none.
pub open spec fn latest_pos(vs: Seq<NuspecView>) -> int {
    match first_where(vs, release_pred()) {
        Some(k) => k,
        None => 0,
    }
}

/// The version marked latest is a release whenever the package has one, and no release
/// of the package is newer.
pub proof fn law_latest_is_highest_release(group: Seq<NuspecView>)
    requires
        0 < group.len() <= usize::MAX,
    ensures
        ({
            let vs = sorted_packages(group, true);
            let latest = vs[latest_pos(vs)];
            &&& (exists|j: int| 0 <= j < group.len() && (#[trigger] group[j]).version.prerelease is None)
                ==> latest.version.prerelease is None
            &&& forall|j: int|
                0 <= j < group.len() && (#[trigger] group[j]).version.prerelease is None
                    ==> version_order(group[j].version, latest.version) <= 0
        }),
{
    law_sorted_packages_ordered(group, true);
    let vs = sorted_packages(group, true);
    lemma_first_where(vs, release_pred());
    let latest = vs[latest_pos(vs)];
    assert forall|j: int|
        0 <= j < group.len() && (#[trigger] group[j]).version.prerelease is None implies version_order(
            group[j].version,
            latest.version,
        ) <= 0 && latest.version.prerelease is None by {
        assert(vs.contains(group[j]));
        let m = choose|m: int| 0 <= m < vs.len() && vs[m] == group[j];
        assert((release_pred())(vs[m]));
        let k = latest_pos(vs);
        law_order_reflexive(vs[m].version);
        if m > k {
            assert(version_order(vs[k].version, vs[m].version) >= 0);
            law_order_antisymmetric(vs[k].version, vs[m].version);
        }
    }
}

/// When a package has only prereleases, the version marked latest is the newest of
/// them: no version of the package comes after it. Whatever the package, the version
/// marked latest is one of its own.
pub proof fn law_latest_without_release_is_newest(group: Seq<NuspecView>)
    requires
        0 < group.len() <= usize::MAX,
    ensures
        ({
            let vs = sorted_packages(group, true);
            let latest = vs[latest_pos(vs)];
            &&& group.contains(latest)
            &&& (forall|j: int| 0 <= j < group.len() ==> (#[trigger] group[j]).version.prerelease is Some)
                ==> forall|k: int| 0 <= k < group.len() ==> version_order(
                (#[trigger] group[k]).version,
                latest.version,
            ) <= 0
        }),
{
    law_sorted_packages_ordered(group, true);
    law_stable_sort_exists(versions_of(group), true);
    let vs = sorted_packages(group, true);
    lemma_first_where(vs, release_pred());
    let k0 = latest_pos(vs);
    let latest = vs[k0];
    let idx = stable_order(versions_of(group), true);
    assert(0 <= k0 < vs.len());
    assert(latest == group[idx[k0] as int]);
    assert(group.contains(latest));
    if forall|j: int| 0 <= j < group.len() ==> (#[trigger] group[j]).version.prerelease is Some {
        assert forall|m: int| 0 <= m < vs.len() implies !(release_pred())(#[trigger] vs[m]) by {
            let i = idx[m] as int;
            assert(vs[m] == group[i]);
            assert(group[i].version.prerelease is Some);
        }
        lemma_first_where_none(vs, release_pred());
        assert(k0 == 0);
        assert forall|k: int| 0 <= k < group.len() implies version_order(
            (#[trigger] group[k]).version,
            latest.version,
        ) <= 0 by {
            assert(vs.contains(group[k]));
            let m = choose|m: int| 0 <= m < vs.len() && vs[m] == group[k];
            law_order_reflexive(vs[m].version);
            if m > 0 {
                assert(version_order(vs[0].version, vs[m].version) >= 0);
                law_order_antisymmetric(vs[0].version, vs[m].version);
            }
        }
    }
}

/// The line of one version: a link to its package file, marked when it is the latest
/// and when it is a prerelease.
pub open spec fn version_line(
    base: Seq<char>,
    id: Seq<char>,
    item: NuspecView,
    latest: NugetVersionView,
) -> Seq<char> {
    let v = escaped(display(item.version));
    let e = escaped(id);
    let a = "<li><a href=\""@ + base + "/v3/package/"@ + e + "/"@ + v + "/"@ + e + "."@ + v
        + ".nupkg\">"@ + v + "</a>"@;
    let b = if version_order(item.version, latest) == 0 {
        a + " (latest)"@
    } else {
        a
    };
    let c = if item.version.prerelease is Some {
        b + " (prerelease)"@
    } else {
        b
    };
    c + "</li>\n"@
}

/// The lines of the versions, in order.
pub open spec fn version_lines(
    base: Seq<char>,
    id: Seq<char>,
    vs: Seq<NuspecView>,
    latest: NugetVersionView,
) -> Seq<char>
    decreases vs.len(),
{
    if vs.len() == 0 {
        Seq::<char>::empty()
    } else {
        version_lines(base, id, vs.drop_last(), latest) + version_line(base, id, vs.last(), latest)
    }
}

/// The heading of a package: its id, description, authors and tags, as its latest
/// version gives them.
pub open spec fn group_header(latest: NuspecView) -> Seq<char> {
    let a = "<h2>"@ + escaped(latest.id) + "</h2>\n<p>"@ + escaped(latest.description) + "<br>"@
        + "<i>"@ + escaped(latest.authors) + "</i>"@;
    let b = if latest.tags.len() > 0 {
        a + "<br>Tags: "@ + escaped(joined(latest.tags, " "@))
    } else {
        a
    };
    b + "</p>\n<ul>\n"@
}

/// The section of the package `id` with the versions `group`: its heading and its
/// versions newest first.
pub open spec fn group_html(base: Seq<char>, id: Seq<char>, group: Seq<NuspecView>) -> Seq<char> {
    let versions = sorted_packages(group, true);
    let latest = versions[latest_pos(versions)];
    group_header(latest) + version_lines(base, id, versions, latest.version) + "</ul>\n"@
}

/// The sections of the groups, in order.
pub open spec fn groups_html(base: Seq<char>, g: Seq<(Seq<char>, Seq<NuspecView>)>) -> Seq<char>
    decreases g.len(),
{
    if g.len() == 0 {
        Seq::<char>::empty()
    } else {
        groups_html(base, g.drop_last()) + group_html(base, g.last().0, g.last().1)
    }
}

/// The footer: the server's version and how many packages and files are served.
pub open spec fn footer_of(packages: nat, files: nat) -> Seq<char> {
    "<hr>\n<address>nupkgd/"@ + server_version() + " &mdash; "@ + decimal(packages) + " "@
        + plural_of(packages, "package"@) + ", "@ + decimal(files) + " "@ + plural_of(files, "file"@)
        + "</address>\n</body></html>\n"@
}

/// The page listing `pkgs`: one section per lower-cased id, in the order of those ids.
pub open spec fn render_html(base: Seq<char>, pkgs: Seq<NuspecView>) -> Seq<char> {
    let g = grouping(pkgs);
    let a = "<html><head><title>nupkgd</title></head><body>\n"@ + "<h1>Index of nupkgd</h1>\n<hr>\n"@;
    let b = if g.len() == 0 {
        a + "<p><i>No packages found.</i></p>\n"@
    } else {
        a
    };
    b + groups_html(base, g) + footer_of(g.len(), pkgs.len())
}

/// `s` with HTML's special characters replaced by entities.
pub fn escape(s: &str) -> (r: String)
    ensures
        r@ == escaped(s@),
{
    let v = chars_of(s);
    let mut out = String::new();
    let n = v.len();
    for i in 0..n
        invariant
            n == v@.len(),
            out@ == escaped(v@.take(i as int)),
    {
        assert(v@.take(i + 1).drop_last() == v@.take(i as int));
        let c = v[i];
        if c == '&' {
            push_str(&mut out, "&amp;");
        } else if c == '<' {
            push_str(&mut out, "&lt;");
        } else if c == '>' {
            push_str(&mut out, "&gt;");
        } else if c == '"' {
            push_str(&mut out, "&quot;");
        } else if c == '\'' {
            push_str(&mut out, "&#39;");
        } else {
            push_char(&mut out, c);
        }
    }
    assert(v@.take(n as int) == v@);
    out
}

/// `word`, with an `s` unless `n` is one.
fn plural(n: usize, word: &str) -> (r: String)
    ensures
        r@ == plural_of(n as nat, word@),
{
    let mut r = word.to_owned();
    if n != 1 {
        push_str(&mut r, "s");
    }
    r
}

/// The strings joined with `sep` between each two (`slice::join`).
fn join_with(ts: &Vec<String>, sep: &str) -> (r: String)
    ensures
        r@ == joined(ts.deep_view(), sep@),
{
    let ghost dv = ts.deep_view();
    let mut r = String::new();
    let n = ts.len();
    for i in 0..n
        invariant
            n == ts@.len(),
            dv == ts.deep_view(),
            r@ == joined(dv.take(i as int), sep@),
    {
        assert(dv.take(i + 1).drop_last() == dv.take(i as int));
        assert(dv.take(i + 1).last() == ts@[i as int]@);
        if i > 0 {
            push_str(&mut r, sep);
        } else {
            assert(r@ =~= Seq::<char>::empty());
        }
        push_str(&mut r, ts[i].as_str());
        if i == 0 {
            assert(r@ =~= ts@[0]@);
        }
    }
    assert(dv.take(n as int) == dv);
    r
}

/// Where the latest of `versions` (sorted newest first) is.
fn latest_index(versions: &Vec<Nuspec>) -> (r: usize)
    requires
        versions@.len() > 0,
    ensures
        r == latest_pos(packages_view(versions@)),
        r < versions@.len(),
{
    let ghost pv = packages_view(versions@);
    let n = versions.len();
    for i in 0..n
        invariant
            n == versions@.len(),
            pv == packages_view(versions@),
            forall|j: int| 0 <= j < i ==> !(release_pred())(#[trigger] pv[j]),
    {
        if versions[i].version.prerelease.is_none() {
            proof {
                lemma_first_where_at(pv, release_pred(), i as int);
            }
            return i;
        }
    }
    proof {
        lemma_first_where_none(pv, release_pred());
    }
    0
}

/// The line of one version.
fn version_line_of(base_url: &str, id_lower: &str, item: &Nuspec, latest: &Nuspec) -> (r: String)
    ensures
        r@ == version_line(base_url@, id_lower@, item@, latest@.version),
{
    let v = escape(item.version.to_string().as_str());
    let e = escape(id_lower);
    let mut line = "<li><a href=\"".to_owned();
    push_str(&mut line, base_url);
    push_str(&mut line, "/v3/package/");
    push_str(&mut line, e.as_str());
    push_str(&mut line, "/");
    push_str(&mut line, v.as_str());
    push_str(&mut line, "/");
    push_str(&mut line, e.as_str());
    push_str(&mut line, ".");
    push_str(&mut line, v.as_str());
    push_str(&mut line, ".nupkg\">");
    push_str(&mut line, v.as_str());
    push_str(&mut line, "</a>");
    if item.version.compare(&latest.version) == 0 {
        push_str(&mut line, " (latest)");
    }
    if item.version.prerelease.is_some() {
        push_str(&mut line, " (prerelease)");
    }
    push_str(&mut line, "</li>\n");
    line
}

/// The heading of a package.
fn group_header_of(latest: &Nuspec) -> (r: String)
    ensures
        r@ == group_header(latest@),
{
    let mut s = "<h2>".to_owned();
    push_str(&mut s, escape(latest.id.as_str()).as_str());
    push_str(&mut s, "</h2>\n<p>");
    push_str(&mut s, escape(latest.description.as_str()).as_str());
    push_str(&mut s, "<br>");
    push_str(&mut s, "<i>");
    push_str(&mut s, escape(latest.authors.as_str()).as_str());
    push_str(&mut s, "</i>");
    if latest.tags.len() > 0 {
        push_str(&mut s, "<br>Tags: ");
        push_str(&mut s, escape(join_with(&latest.tags, " ").as_str()).as_str());
    }
    push_str(&mut s, "</p>\n<ul>\n");
    s
}

/// The section of the package `id_lower` with the versions `group`.
fn group_section(base_url: &str, id_lower: &str, group: &[Nuspec]) -> (r: String)
    requires
        group@.len() > 0,
    ensures
        r@ == group_html(base_url@, id_lower@, packages_view(group@)),
{
    let versions = sort_packages(group, true);
    let ghost vs = packages_view(versions@);
    let k = latest_index(&versions);
    let latest = &versions[k];
    let ghost lv = latest@.version;
    let ghost head = group_header(latest@);
    let mut s = group_header_of(latest);
    let n = versions.len();
    assert(s@ =~= head + version_lines(base_url@, id_lower@, vs.take(0), lv));
    for i in 0..n
        invariant
            n == versions@.len(),
            vs == packages_view(versions@),
            lv == latest@.version,
            s@ == head + version_lines(base_url@, id_lower@, vs.take(i as int), lv),
    {
        assert(vs.take(i + 1).drop_last() == vs.take(i as int));
        assert(vs.take(i + 1).last() == versions@[i as int]@);
        let line = version_line_of(base_url, id_lower, &versions[i], latest);
        let ghost before = s@;
        push_str(&mut s, line.as_str());
        assert(s@ =~= head + version_lines(base_url@, id_lower@, vs.take(i + 1), lv));
    }
    assert(vs.take(n as int) == vs);
    push_str(&mut s, "</ul>\n");
    s
}

/// The footer of the page.
fn footer(packages: usize, files: usize) -> (r: String)
    ensures
        r@ == footer_of(packages as nat, files as nat),
{
    let mut s = "<hr>\n<address>nupkgd/".to_owned();
    push_str(&mut s, version());
    push_str(&mut s, " &mdash; ");
    push_decimal(&mut s, packages as u64);
    push_str(&mut s, " ");
    push_str(&mut s, plural(packages, "package").as_str());
    push_str(&mut s, ", ");
    push_decimal(&mut s, files as u64);
    push_str(&mut s, " ");
    push_str(&mut s, plural(files, "file").as_str());
    push_str(&mut s, "</address>\n</body></html>\n");
    s
}

/// The page listing `packages` (see [`render_html`]).
pub fn render(base_url: &str, packages: &[Nuspec]) -> (r: String)
    ensures
        r@ == render_html(base_url@, packages_view(packages@)),
{
    let groups = group_by_id(packages);
    let ghost g = groups_of_view(groups@);
    let mut html = "<html><head><title>nupkgd</title></head><body>\n".to_owned();
    push_str(&mut html, "<h1>Index of nupkgd</h1>\n<hr>\n");
    if groups.len() == 0 {
        push_str(&mut html, "<p><i>No packages found.</i></p>\n");
    }
    let ghost b = html@;
    let n = groups.len();
    assert(html@ =~= b + groups_html(base_url@, g.take(0)));
    for i in 0..n
        invariant
            n == groups@.len(),
            g == groups_of_view(groups@),
            is_grouping(packages_view(packages@), g),
            html@ == b + groups_html(base_url@, g.take(i as int)),
    {
        assert(g.take(i + 1).drop_last() == g.take(i as int));
        assert(g.take(i + 1).last() == g[i as int]);
        assert(g[i as int].1.len() > 0);
        let section = group_section(base_url, groups[i].0.as_str(), groups[i].1.as_slice());
        push_str(&mut html, section.as_str());
        assert(html@ =~= b + groups_html(base_url@, g.take(i + 1)));
    }
    assert(g.take(n as int) == g);
    let tail = footer(n, packages.len());
    push_str(&mut html, tail.as_str());
    html
}

} // verus!
