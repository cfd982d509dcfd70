//! The served feed: the packages read from the feed directory, and how requests find them.
use vstd::prelude::*;
use crate::nuget_version::{NugetVersion, NugetVersionView, parse_version, version_order};
use crate::nuspec::{Nuspec, NuspecView};
use crate::seqs::{first_where, lemma_first_where_at, lemma_first_where_none};
use crate::text::{
    chars_of, compare_chars, ends_with, ends_with_chars, lemma_chars_deep_view, lemma_chars_order_facts,
    lemma_split_len, ascii_lower_char, ascii_lower_char_exec, push_str, split, split_chars, sub_chars,
    string_of, trim_end_char, trim_end_char_exec, unicode_lowercase,
};

verus! {

/// The state of the server: where packages come from and the packages read so far.
pub struct AppState {
    /// The externally visible base URL, when configured; otherwise it comes from each request.
    pub base_url: Option<String>,
    pub contents: Vec<Nuspec>,
    /// The directory that is scanned for packages.
    pub base_dir: String,
    /// Whether subdirectories are scanned too.
    pub recursive: bool,
    /// Whether file paths are read by Windows rules (`\` separates too, and a drive
    /// prefix such as `C:` comes first), as on the platform the server runs on.
    pub windows_paths: bool,
}

/// The request headers that decide the base URL, each present only when it is valid text.
pub struct RequestHeaders {
    /// `X-Forwarded-Proto`.
    pub forwarded_proto: Option<String>,
    /// `X-Forwarded-Host`.
    pub forwarded_host: Option<String>,
    /// `Host`.
    pub host: Option<String>,
}

/// The views of a sequence of packages.
pub open spec fn packages_view(v: Seq<Nuspec>) -> Seq<NuspecView> {
    v.map_values(|n: Nuspec| n@)
}

/// The pieces of a path after the first `/`-separated one, as path components: empty
/// pieces (from repeated or trailing `/`) and `.` pieces are left out.
pub open spec fn normal_pieces(ps: Seq<Seq<char>>) -> Seq<Seq<char>>
    decreases ps.len(),
{
    if ps.len() == 0 {
        Seq::<Seq<char>>::empty()
    } else {
        let pre = normal_pieces(ps.drop_last());
        let x = ps.last();
        if x.len() == 0 || x == seq!['.'] {
            pre
        } else {
            pre.push(x)
        }
    }
}

/// The components of a path, as `Path::components` reads a Unix path: the root `/`
/// when the path starts with one, else a leading `.` when the first piece is `.`,
/// else the first piece when it is not empty; then the other pieces between `/`s,
/// without empty and `.` pieces.
pub open spec fn path_components(p: Seq<char>) -> Seq<Seq<char>> {
    let pieces = split(p, '/');
    let head = if p.len() > 0 && p[0] == '/' {
        seq![seq!['/']]
    } else if pieces[0].len() == 0 {
        Seq::<Seq<char>>::empty()
    } else {
        seq![pieces[0]]
    };
    head + normal_pieces(pieces.drop_first())
}

/// The path with every `\` turned into `/`.
pub open spec fn forward_slashes(p: Seq<char>) -> Seq<char> {
    p.map_values(|c: char| if c == '\\' { '/' } else { c })
}

/// The letter of a Windows drive prefix (`C:`), in lower case, when the path starts
/// with one.
pub open spec fn drive_letter(p: Seq<char>) -> Option<char> {
    if p.len() >= 2 && (('a' <= p[0] && p[0] <= 'z') || ('A' <= p[0] && p[0] <= 'Z')) && p[1] == ':' {
        Some(ascii_lower_char(p[0]))
    } else {
        None
    }
}

/// The components of a path, as `Path::components` reads it on Unix, or on Windows
/// when `windows`: there `\` separates as `/` does, and a drive prefix comes first as a
/// component of its own, whatever the case of its letter. (The other Windows prefixes,
/// `\\server\share`, `\\?\` and `\\.\`, are read as ordinary pieces.)
pub open spec fn path_components_on(p: Seq<char>, windows: bool) -> Seq<Seq<char>> {
    if windows {
        let q = forward_slashes(p);
        match drive_letter(q) {
            Some(d) => seq![seq!['\\', d, ':']] + path_components(q.subrange(2, q.len() as int)),
            None => path_components(q),
        }
    } else {
        path_components(p)
    }
}

/// The two paths name the same file as `Path` equality sees it: they have the same
/// components.
pub open spec fn same_path(a: Seq<char>, b: Seq<char>, windows: bool) -> bool {
    path_components_on(a, windows) == path_components_on(b, windows)
}

/// The packages, in order, except those read from the file `path` (under any spelling
/// of that path with the same components).
pub open spec fn without_file(s: Seq<NuspecView>, path: Seq<char>, windows: bool) -> Seq<NuspecView>
    decreases s.len(),
{
    if s.len() == 0 {
        Seq::<NuspecView>::empty()
    } else {
        let pre = without_file(s.drop_last(), path, windows);
        if same_path(s.last().file, path, windows) {
            pre
        } else {
            pre.push(s.last())
        }
    }
}

/// How many of the packages were read from the file `path` (under any spelling of it).
pub open spec fn file_count(s: Seq<NuspecView>, path: Seq<char>, windows: bool) -> nat
    decreases s.len(),
{
    if s.len() == 0 {
        0
    } else {
        file_count(s.drop_last(), path, windows) + if same_path(s.last().file, path, windows) {
            1nat
        } else {
            0nat
        }
    }
}

/// Forgetting a file leaves no package read from it.
pub proof fn law_remove_file_forgets_it(s: Seq<NuspecView>, path: Seq<char>, windows: bool)
    ensures
        file_count(without_file(s, path, windows), path, windows) == 0,
    decreases s.len(),
{
    if s.len() > 0 {
        law_remove_file_forgets_it(s.drop_last(), path, windows);
        if !same_path(s.last().file, path, windows) {
            assert(without_file(s, path, windows).drop_last() =~= without_file(s.drop_last(), path, windows));
        }
    }
}

/// Forgetting a file keeps every package read from any other file.
pub proof fn law_remove_file_keeps_others(
    s: Seq<NuspecView>,
    path: Seq<char>,
    other: Seq<char>,
    windows: bool,
)
    requires
        !same_path(other, path, windows),
    ensures
        file_count(without_file(s, path, windows), other, windows) == file_count(s, other, windows),
    decreases s.len(),
{
    if s.len() > 0 {
        law_remove_file_keeps_others(s.drop_last(), path, other, windows);
        if !same_path(s.last().file, path, windows) {
            assert(without_file(s, path, windows).drop_last() =~= without_file(s.drop_last(), path, windows));
        }
    }
}

/// After a package is recorded, exactly one package is read from its file: a file
/// recorded twice is not listed twice.
pub proof fn law_add_file_single_entry(s: Seq<NuspecView>, item: NuspecView, windows: bool)
    ensures
        file_count(without_file(s, item.file, windows).push(item), item.file, windows) == 1,
{
    law_remove_file_forgets_it(s, item.file, windows);
    assert(without_file(s, item.file, windows).push(item).drop_last() =~= without_file(s, item.file, windows));
}

/// The package's id equals `id`, ignoring case.
pub open spec fn id_matches(n: NuspecView, id: Seq<char>) -> bool {
    unicode_lowercase(n.id) == unicode_lowercase(id)
}

/// The packages, in order, whose id equals `id` ignoring case.
pub open spec fn with_id(s: Seq<NuspecView>, id: Seq<char>) -> Seq<NuspecView>
    decreases s.len(),
{
    if s.len() == 0 {
        Seq::<NuspecView>::empty()
    } else {
        let pre = with_id(s.drop_last(), id);
        if id_matches(s.last(), id) {
            pre.push(s.last())
        } else {
            pre
        }
    }
}

/// A package just recorded is among the versions found for its id, as the last of them.
pub proof fn law_added_package_is_found(s: Seq<NuspecView>, item: NuspecView, windows: bool)
    ensures
        with_id(without_file(s, item.file, windows).push(item), item.id).len() > 0,
        with_id(without_file(s, item.file, windows).push(item), item.id).last() == item,
{
    assert(without_file(s, item.file, windows).push(item).drop_last() =~= without_file(s, item.file, windows));
}

/// Every package found for an id has that id, ignoring case.
pub proof fn law_found_packages_match(s: Seq<NuspecView>, id: Seq<char>)
    ensures
        forall|i: int| 0 <= i < with_id(s, id).len() ==> id_matches(#[trigger] with_id(s, id)[i], id),
    decreases s.len(),
{
    if s.len() > 0 {
        law_found_packages_match(s.drop_last(), id);
        let pre = with_id(s.drop_last(), id);
        assert forall|i: int| 0 <= i < with_id(s, id).len() implies id_matches(
            #[trigger] with_id(s, id)[i],
            id,
        ) by {
            if i < pre.len() {
                assert(with_id(s, id)[i] == pre[i]);
            }
        }
    }
}

/// The package has id `id` (ignoring case) and a version equal to `v`.
pub open spec fn version_pred(id: Seq<char>, v: NugetVersionView) -> spec_fn(NuspecView) -> bool {
    |n: NuspecView| id_matches(n, id) && version_order(n.version, v) == 0
}

/// The base URL: the configured one without trailing slashes, or else
/// `scheme://host` from the headers (`http` and `localhost:8080` by default,
/// `X-Forwarded-Host` before `Host`).
pub open spec fn base_url_of(
    configured: Option<Seq<char>>,
    proto: Option<Seq<char>>,
    forwarded_host: Option<Seq<char>>,
    host: Option<Seq<char>>,
) -> Seq<char> {
    match configured {
        Some(b) => trim_end_char(b, '/'),
        None => {
            let scheme = match proto {
                Some(p) => p,
                None => "http"@,
            };
            let h = match forwarded_host {
                Some(f) => f,
                None => match host {
                    Some(x) => x,
                    None => "localhost:8080"@,
                },
            };
            scheme + "://"@ + h
        },
    }
}

/// The file name is that of a package (`.nupkg`).
pub fn is_package_file_name(name: &str) -> (r: bool)
    ensures
        r == ends_with(name@, ".nupkg"@),
{
    ends_with_chars(&chars_of(name), &chars_of(".nupkg"))
}

fn clone_packages(v: &Vec<Nuspec>) -> (r: Vec<Nuspec>)
    ensures
        packages_view(r@) == packages_view(v@),
{
    let mut r: Vec<Nuspec> = Vec::new();
    let n = v.len();
    for i in 0..n
        invariant
            n == v@.len(),
            r@.len() == i,
            packages_view(r@) == packages_view(v@).take(i as int),
    {
        let ghost before = r@;
        r.push(v[i].clone());
        assert(packages_view(r@) =~= packages_view(v@).take(i + 1));
    }
    assert(packages_view(v@).take(n as int) =~= packages_view(v@));
    r
}

/// The pieces of `ps` from the second on, as path components.
fn normal_pieces_of(ps: &Vec<Vec<char>>) -> (r: Vec<Vec<char>>)
    requires
        ps@.len() >= 1,
    ensures
        r.deep_view() == normal_pieces(ps.deep_view().drop_first()),
{
    let ghost dv = ps.deep_view();
    proof {
        lemma_pieces_view(*ps);
    }
    let mut r: Vec<Vec<char>> = Vec::new();
    let n = ps.len();
    assert(dv.subrange(1, 1) =~= Seq::<Seq<char>>::empty());
    assert(r.deep_view() =~= Seq::<Seq<char>>::empty());
    for i in 1..n
        invariant
            n == ps@.len(),
            dv == ps.deep_view(),
            r.deep_view() == normal_pieces(dv.subrange(1, i as int)),
            dv.len() == ps@.len(),
            forall|j: int| 0 <= j < ps@.len() ==> #[trigger] dv[j] == ps@[j]@,
    {
        assert(dv.subrange(1, i + 1).drop_last() =~= dv.subrange(1, i as int));
        assert(dv.subrange(1, i + 1).last() == ps@[i as int]@);
        let x = &ps[i];
        let dot = x.len() == 1 && x[0] == '.';
        proof {
            if x@ == seq!['.'] {
                assert(x@[0] == '.');
            }
            if dot {
                assert(x@ =~= seq!['.']);
            }
        }
        if !(x.len() == 0 || dot) {
            let ghost before = r@;
            r.push(sub_chars(x, 0, x.len()));
            proof {
                lemma_pieces_view(r);
                lemma_pieces_view(*ps);
                assert(x@.subrange(0, x@.len() as int) =~= x@);
                assert(r.deep_view() =~= normal_pieces(dv.subrange(1, i as int)).push(x@));
            }
        }
    }
    assert(dv.subrange(1, n as int) =~= dv.drop_first());
    r
}

/// The components of the path `p`.
fn components_of(p: &str) -> (r: Vec<Vec<char>>)
    ensures
        r.deep_view() == path_components(p@),
{
    let v = chars_of(p);
    let pieces = split_chars(&v, '/');
    proof {
        lemma_split_len(v@, '/');
        lemma_pieces_view(pieces);
    }
    let mut r: Vec<Vec<char>> = Vec::new();
    if v.len() > 0 && v[0] == '/' {
        let mut root: Vec<char> = Vec::new();
        root.push('/');
        r.push(root);
    } else if pieces[0].len() > 0 {
        r.push(sub_chars(&pieces[0], 0, pieces[0].len()));
    }
    proof {
        lemma_pieces_view(r);
        assert(pieces@[0]@.subrange(0, pieces@[0]@.len() as int) =~= pieces@[0]@);
    }
    let ghost h = r.deep_view();
    assert(h =~= if p@.len() > 0 && p@[0] == '/' {
        seq![seq!['/']]
    } else if split(p@, '/')[0].len() == 0 {
        Seq::<Seq<char>>::empty()
    } else {
        seq![split(p@, '/')[0]]
    });
    let mut tail = normal_pieces_of(&pieces);
    let ghost t = tail.deep_view();
    proof {
        lemma_pieces_view(tail);
    }
    r.append(&mut tail);
    proof {
        lemma_pieces_view(r);
    }
    assert(r.deep_view() =~= h + t);
    r
}

/// The deep view of character vectors is their plain view, piece by piece.
proof fn lemma_pieces_view(v: Vec<Vec<char>>)
    ensures
        v.deep_view().len() == v@.len(),
        forall|i: int| 0 <= i < v@.len() ==> #[trigger] v.deep_view()[i] == v@[i]@,
{
    assert forall|i: int| 0 <= i < v@.len() implies #[trigger] v.deep_view()[i] == v@[i]@ by {
        lemma_chars_deep_view(v@[i]);
    }
}

/// The two component lists are the same.
fn same_components(a: &Vec<Vec<char>>, b: &Vec<Vec<char>>) -> (r: bool)
    ensures
        r == (a.deep_view() == b.deep_view()),
{
    proof {
        lemma_pieces_view(*a);
        lemma_pieces_view(*b);
    }
    if a.len() != b.len() {
        return false;
    }
    let n = a.len();
    for i in 0..n
        invariant
            n == a@.len(),
            n == b@.len(),
            forall|j: int| 0 <= j < i ==> a.deep_view()[j] == b.deep_view()[j],
            forall|j: int| 0 <= j < n ==> #[trigger] a.deep_view()[j] == a@[j]@,
            forall|j: int| 0 <= j < n ==> #[trigger] b.deep_view()[j] == b@[j]@,
            a.deep_view().len() == n,
            b.deep_view().len() == n,
    {
        let c = compare_chars(&a[i], &b[i]);
        proof {
            lemma_chars_order_facts(a@[i as int]@, b@[i as int]@);
        }
        if c != 0 {
            assert(a.deep_view()[i as int] != b.deep_view()[i as int]);
            return false;
        }
    }
    assert(a.deep_view() =~= b.deep_view());
    true
}

/// The path with every `\` turned into `/`.
fn forward_slashes_of(p: &str) -> (r: Vec<char>)
    ensures
        r@ == forward_slashes(p@),
{
    let v = chars_of(p);
    let mut r: Vec<char> = Vec::new();
    let n = v.len();
    for i in 0..n
        invariant
            n == v@.len(),
            r@ == forward_slashes(v@).take(i as int),
    {
        let c = v[i];
        r.push(if c == '\\' { '/' } else { c });
        assert(r@ =~= forward_slashes(v@).take(i + 1));
    }
    assert(forward_slashes(v@).take(n as int) =~= forward_slashes(v@));
    r
}

/// The components of the path `p`, read by Windows rules when `windows`.
fn components_on(p: &str, windows: bool) -> (r: Vec<Vec<char>>)
    ensures
        r.deep_view() == path_components_on(p@, windows),
{
    if !windows {
        return components_of(p);
    }
    let q = forward_slashes_of(p);
    let n = q.len();
    if n >= 2 && (('a' <= q[0] && q[0] <= 'z') || ('A' <= q[0] && q[0] <= 'Z')) && q[1] == ':' {
        let mut prefix: Vec<char> = Vec::new();
        prefix.push('\\');
        prefix.push(ascii_lower_char_exec(q[0]));
        prefix.push(':');
        assert(prefix@ =~= seq!['\\', ascii_lower_char(q@[0]), ':']);
        let mut r: Vec<Vec<char>> = Vec::new();
        r.push(prefix);
        let rest = string_of(&sub_chars(&q, 2, n));
        let mut tail = components_of(rest.as_str());
        let ghost t = tail.deep_view();
        proof {
            lemma_pieces_view(r);
            lemma_pieces_view(tail);
        }
        let ghost h = r.deep_view();
        assert(h.len() == 1 && h[0] == seq!['\\', ascii_lower_char(q@[0]), ':']);
        assert(h =~= seq![seq!['\\', ascii_lower_char(q@[0]), ':']]);
        r.append(&mut tail);
        proof {
            lemma_pieces_view(r);
        }
        assert(r.deep_view() =~= h + t);
        r
    } else {
        components_of(string_of(&q).as_str())
    }
}

/// Whether the two paths name the same file, compared by components (by Windows rules
/// when `windows`).
pub fn is_same_path(a: &str, b: &str, windows: bool) -> (r: bool)
    ensures
        r == same_path(a@, b@, windows),
{
    same_components(&components_on(a, windows), &components_on(b, windows))
}

/// The packages of `v` except those read from `path`.
fn retain_other_files(v: &Vec<Nuspec>, path: &str, windows: bool) -> (r: Vec<Nuspec>)
    ensures
        packages_view(r@) == without_file(packages_view(v@), path@, windows),
{
    let ghost pv = packages_view(v@);
    let mut r: Vec<Nuspec> = Vec::new();
    let n = v.len();
    for i in 0..n
        invariant
            n == v@.len(),
            pv == packages_view(v@),
            packages_view(r@) == without_file(pv.take(i as int), path@, windows),
    {
        assert(pv.take(i + 1).drop_last() == pv.take(i as int));
        assert(pv.take(i + 1).last() == v@[i as int]@);
        if !is_same_path(v[i].file.as_str(), path, windows) {
            let ghost before = r@;
            r.push(v[i].clone());
            assert(packages_view(r@) =~= packages_view(before).push(v@[i as int]@));
        }
    }
    assert(pv.take(n as int) == pv);
    r
}

impl AppState {
    /// Forgets the packages read from the file `path`.
    pub fn remove_file(&mut self, path: &str)
        ensures
            packages_view(final(self).contents@) == without_file(
                packages_view(old(self).contents@),
                path@,
                old(self).windows_paths,
            ),
            final(self).base_url == old(self).base_url,
            final(self).base_dir == old(self).base_dir,
            final(self).recursive == old(self).recursive,
            final(self).windows_paths == old(self).windows_paths,
    {
        self.contents = retain_other_files(&self.contents, path, self.windows_paths);
    }

    /// Records `item`, replacing whatever was read before from the same file.
    pub fn add_file(&mut self, item: Nuspec)
        ensures
            packages_view(final(self).contents@) == without_file(
                packages_view(old(self).contents@),
                item.file@,
                old(self).windows_paths,
            ).push(item@),
            final(self).base_url == old(self).base_url,
            final(self).base_dir == old(self).base_dir,
            final(self).recursive == old(self).recursive,
            final(self).windows_paths == old(self).windows_paths,
    {
        let mut kept = retain_other_files(&self.contents, item.file.as_str(), self.windows_paths);
        let ghost before = kept@;
        let ghost it = item@;
        kept.push(item);
        assert(packages_view(kept@) =~= packages_view(before).push(it));
        self.contents = kept;
    }

    /// A copy of the packages.
    pub fn get_contents(&self) -> (r: Vec<Nuspec>)
        ensures
            packages_view(r@) == packages_view(self.contents@),
    {
        clone_packages(&self.contents)
    }

    /// The base URL for links in responses to a request with these headers.
    pub fn resolve_base_url(&self, headers: &RequestHeaders) -> (r: String)
        ensures
            r@ == base_url_of(
                self.base_url.deep_view(),
                headers.forwarded_proto.deep_view(),
                headers.forwarded_host.deep_view(),
                headers.host.deep_view(),
            ),
    {
        if let Some(base_url) = &self.base_url {
            return trim_end_char_exec(base_url.as_str(), '/');
        }
        let mut r = String::new();
        match &headers.forwarded_proto {
            Some(p) => push_str(&mut r, p.as_str()),
            None => push_str(&mut r, "http"),
        }
        push_str(&mut r, "://");
        match &headers.forwarded_host {
            Some(h) => push_str(&mut r, h.as_str()),
            None => match &headers.host {
                Some(h) => push_str(&mut r, h.as_str()),
                None => push_str(&mut r, "localhost:8080"),
            },
        }
        r
    }

    /// How deep below the feed directory packages are looked for.
    pub fn scan_depth(&self) -> (r: usize)
        ensures
            r == if self.recursive {
                usize::MAX
            } else {
                1
            },
    {
        if self.recursive {
            usize::MAX
        } else {
            1
        }
    }

    /// Replaces the packages with those of a fresh scan of the feed directory.
    pub fn replace_contents(&mut self, items: Vec<Nuspec>)
        ensures
            final(self).contents@ == items@,
            final(self).base_url == old(self).base_url,
            final(self).base_dir == old(self).base_dir,
            final(self).recursive == old(self).recursive,
            final(self).windows_paths == old(self).windows_paths,
    {
        self.contents = items;
    }

    /// Every version of the package `package_id` (ignoring case), in order; `None`
    /// when there is none.
    pub fn find_package(&self, package_id: &str) -> (r: Option<Vec<Nuspec>>)
        ensures
            r is Some == (with_id(packages_view(self.contents@), package_id@).len() > 0),
            r matches Some(v) ==> packages_view(v@) == with_id(
                packages_view(self.contents@),
                package_id@,
            ),
    {
        let ghost pv = packages_view(self.contents@);
        let mut r: Vec<Nuspec> = Vec::new();
        let n = self.contents.len();
        for i in 0..n
            invariant
                n == self.contents@.len(),
                pv == packages_view(self.contents@),
                packages_view(r@) == with_id(pv.take(i as int), package_id@),
        {
            assert(pv.take(i + 1).drop_last() == pv.take(i as int));
            assert(pv.take(i + 1).last() == self.contents@[i as int]@);
            if self.contents[i].match_id(package_id) {
                let ghost before = r@;
                r.push(self.contents[i].clone());
                assert(packages_view(r@) =~= packages_view(before).push(self.contents@[i as int]@));
            }
        }
        assert(pv.take(n as int) == pv);
        if r.len() > 0 {
            Some(r)
        } else {
            None
        }
    }

    /// The first package with id `package_id` (ignoring case) whose version equals the
    /// version `version` spells; `None` when there is none or `version` is not a version.
    pub fn find_package_version(&self, package_id: &str, version: &str) -> (r: Option<Nuspec>)
        ensures
            match parse_version(version@) {
                Err(_) => r is None,
                Ok(v) => match first_where(packages_view(self.contents@), version_pred(package_id@, v)) {
                    Some(k) => r matches Some(n) && n@ == packages_view(self.contents@)[k],
                    None => r is None,
                },
            },
    {
        let wanted = match NugetVersion::parse(version) {
            Ok(v) => v,
            Err(_) => {
                return None;
            },
        };
        let ghost pv = packages_view(self.contents@);
        let ghost p = version_pred(package_id@, wanted@);
        let n = self.contents.len();
        for i in 0..n
            invariant
                n == self.contents@.len(),
                pv == packages_view(self.contents@),
                p == version_pred(package_id@, wanted@),
                parse_version(version@) == Ok::<NugetVersionView, crate::nuget_version::VersionError>(
                    wanted@,
                ),
                forall|j: int| 0 <= j < i ==> !p(#[trigger] pv[j]),
        {
            let item = &self.contents[i];
            if item.match_id(package_id) && item.version.compare(&wanted) == 0 {
                proof {
                    lemma_first_where_at(pv, p, i as int);
                }
                let found = item.clone();
                assert(found@ == pv[i as int]);
                return Some(found);
            }
        }
        proof {
            lemma_first_where_none(pv, p);
        }
        None
    }
}

} // verus!
