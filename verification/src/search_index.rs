//! Search results: the packages grouped by id, one item per package with its versions.
use vstd::prelude::*;
use crate::app_state::packages_view;
use crate::grouping::{group_by_id, groups_of_view, grouping, is_grouping, law_grouping_exists};
use crate::nuget_version::{display, law_order_reflexive, version_order};
use crate::nuspec::{Nuspec, NuspecView};
use crate::registration_index::{registration_index_url, registration_url, RegistrationIndex};
use crate::sort::{law_sorted_packages_ordered, sort_packages, sorted_packages};
use crate::text::{chars_order, chars_of, split, split_chars, strings_of};

verus! {

/// The downloads count that every search result reports.
pub const DOWNLOADS: u32 = 31415265;

/// The default number of results in one page.
pub const DEFAULT_TAKE: usize = 20;

/// A page of search results and how many packages matched in all.
pub struct SearchIndex {
    pub total_hits: u32,
    pub data: Vec<SearchIndexItem>,
}

/// One package in the search results, described by its latest version.
pub struct SearchIndexItem {
    pub at_id: String,
    pub at_type: String,
    pub registration: String,
    pub id: String,
    pub version: String,
    pub description: String,
    pub authors: Vec<String>,
    pub tags: Vec<String>,
    pub total_downloads: u32,
    pub verified: bool,
    pub versions: Vec<SearchVersion>,
}

/// One version of a package in the search results.
pub struct SearchVersion {
    pub at_id: String,
    pub version: String,
    pub downloads: u32,
}

/// The mathematical value of a [`SearchVersion`].
pub struct SearchVersionView {
    pub at_id: Seq<char>,
    pub version: Seq<char>,
    pub downloads: u32,
}

/// The mathematical value of a [`SearchIndexItem`].
pub struct SearchIndexItemView {
    pub at_id: Seq<char>,
    pub at_type: Seq<char>,
    pub registration: Seq<char>,
    pub id: Seq<char>,
    pub version: Seq<char>,
    pub description: Seq<char>,
    pub authors: Seq<Seq<char>>,
    pub tags: Seq<Seq<char>>,
    pub total_downloads: u32,
    pub verified: bool,
    pub versions: Seq<SearchVersionView>,
}

/// The mathematical value of a [`SearchIndex`].
pub struct SearchIndexView {
    pub total_hits: u32,
    pub data: Seq<SearchIndexItemView>,
}

impl View for SearchVersion {
    type V = SearchVersionView;

    open spec fn view(&self) -> SearchVersionView {
        SearchVersionView { at_id: self.at_id@, version: self.version@, downloads: self.downloads }
    }
}

impl View for SearchIndexItem {
    type V = SearchIndexItemView;

    open spec fn view(&self) -> SearchIndexItemView {
        SearchIndexItemView {
            at_id: self.at_id@,
            at_type: self.at_type@,
            registration: self.registration@,
            id: self.id@,
            version: self.version@,
            description: self.description@,
            authors: self.authors.deep_view(),
            tags: self.tags.deep_view(),
            total_downloads: self.total_downloads,
            verified: self.verified,
            versions: self.versions@.map_values(|v: SearchVersion| v@),
        }
    }
}

impl View for SearchIndex {
    type V = SearchIndexView;

    open spec fn view(&self) -> SearchIndexView {
        SearchIndexView {
            total_hits: self.total_hits,
            data: self.data@.map_values(|i: SearchIndexItem| i@),
        }
    }
}

impl Default for SearchIndex {
    fn default() -> (r: SearchIndex)
        ensures
            r@ == (SearchIndexView { total_hits: 0, data: Seq::<SearchIndexItemView>::empty() }),
    {
        let r = SearchIndex { total_hits: 0, data: Vec::new() };
        assert(r@.data =~= Seq::<SearchIndexItemView>::empty());
        r
    }
}

/// The packages, in order, that search shows: all of them when `prerelease`, else
/// those with a release version.
pub open spec fn shown(pkgs: Seq<NuspecView>, prerelease: bool) -> Seq<NuspecView>
    decreases pkgs.len(),
{
    if pkgs.len() == 0 {
        Seq::<NuspecView>::empty()
    } else {
        let pre = shown(pkgs.drop_last(), prerelease);
        if prerelease || pkgs.last().version.prerelease is None {
            pre.push(pkgs.last())
        } else {
            pre
        }
    }
}

/// One version in a search result.
pub open spec fn search_version_of(base: Seq<char>, id: Seq<char>, p: NuspecView) -> SearchVersionView {
    SearchVersionView {
        at_id: registration_url(base, id, display(p.version)),
        version: display(p.version),
        downloads: DOWNLOADS,
    }
}

/// The search result for the package `id` with the versions `group`: described by its
/// highest version, listing every version in ascending order.
pub open spec fn search_item_of(base: Seq<char>, id: Seq<char>, group: Seq<NuspecView>) -> SearchIndexItemView {
    let sorted = sorted_packages(group, false);
    let latest = sorted.last();
    SearchIndexItemView {
        at_id: registration_index_url(base, id),
        at_type: "Package"@,
        registration: registration_index_url(base, id),
        id,
        version: display(latest.version),
        description: latest.description,
        authors: split(latest.authors, ','),
        tags: latest.tags,
        total_downloads: DOWNLOADS,
        verified: true,
        versions: sorted.map_values(|p: NuspecView| search_version_of(base, id, p)),
    }
}

/// The search results of the groups, in order.
pub open spec fn search_items(base: Seq<char>, g: Seq<(Seq<char>, Seq<NuspecView>)>) -> Seq<SearchIndexItemView> {
    g.map_values(|e: (Seq<char>, Seq<NuspecView>)| search_item_of(base, e.0, e.1))
}

/// The items that remain after skipping `skip` of them, at most `take` of those.
pub open spec fn page_of<A>(s: Seq<A>, skip: nat, take: nat) -> Seq<A> {
    if skip >= s.len() {
        Seq::<A>::empty()
    } else if skip + take >= s.len() {
        s.subrange(skip as int, s.len() as int)
    } else {
        s.subrange(skip as int, (skip + take) as int)
    }
}

/// The search index of `pkgs`: empty when there are none; otherwise one item per
/// lower-cased id among the packages shown (see [`shown`]), in the order of those ids,
/// paged by `skip` (0 by default) and `take` (20 by default), and the number of items
/// in all, as a `u32`.
pub open spec fn search_index_of(
    base: Seq<char>,
    pkgs: Seq<NuspecView>,
    skip: Option<usize>,
    take: Option<usize>,
    prerelease: Option<bool>,
) -> SearchIndexView {
    if pkgs.len() == 0 {
        SearchIndexView { total_hits: 0, data: Seq::<SearchIndexItemView>::empty() }
    } else {
        let g = grouping(shown(sorted_packages(pkgs, false), prerelease == Some(true)));
        let s: nat = match skip {
            Some(n) => n as nat,
            None => 0,
        };
        let t: nat = match take {
            Some(n) => n as nat,
            None => DEFAULT_TAKE as nat,
        };
        SearchIndexView { total_hits: g.len() as u32, data: page_of(search_items(base, g), s, t) }
    }
}

/// Without `prerelease`, search shows no prerelease version.
pub proof fn law_shown_hides_prerelease(pkgs: Seq<NuspecView>)
    ensures
        forall|i: int|
            0 <= i < shown(pkgs, false).len() ==> (#[trigger] shown(pkgs, false)[i]).version.prerelease is None,
    decreases pkgs.len(),
{
    if pkgs.len() > 0 {
        law_shown_hides_prerelease(pkgs.drop_last());
    }
}

/// Without `prerelease`, search keeps every release, build metadata or not, and shows
/// only packages of the list.
pub proof fn law_shown_keeps_releases(pkgs: Seq<NuspecView>)
    ensures
        forall|i: int|
            0 <= i < pkgs.len() && (#[trigger] pkgs[i]).version.prerelease is None ==> shown(
                pkgs,
                false,
            ).contains(pkgs[i]),
        forall|j: int| 0 <= j < shown(pkgs, false).len() ==> pkgs.contains(#[trigger] shown(pkgs, false)[j]),
    decreases pkgs.len(),
{
    if pkgs.len() > 0 {
        let pre_in = pkgs.drop_last();
        law_shown_keeps_releases(pre_in);
        let pre = shown(pre_in, false);
        let cur = shown(pkgs, false);
        assert forall|i: int|
            0 <= i < pkgs.len() && (#[trigger] pkgs[i]).version.prerelease is None implies cur.contains(pkgs[i]) by {
            if i < pkgs.len() - 1 {
                assert(pre_in[i] == pkgs[i]);
                assert(pre.contains(pkgs[i]));
                let k = choose|k: int| 0 <= k < pre.len() && pre[k] == pkgs[i];
                assert(cur[k] == pre[k]);
            } else {
                assert(cur[cur.len() - 1] == pkgs.last());
            }
        }
        assert forall|j: int| 0 <= j < cur.len() implies pkgs.contains(#[trigger] cur[j]) by {
            if j < pre.len() {
                assert(cur[j] == pre[j]);
                assert(pre_in.contains(pre[j]));
                let k = choose|k: int| 0 <= k < pre_in.len() && pre_in[k] == pre[j];
                assert(pkgs[k] == pre_in[k]);
            } else {
                assert(cur[j] == pkgs[pkgs.len() - 1]);
            }
        }
    }
}

/// With `prerelease`, search shows every package.
pub proof fn law_shown_keeps_all_with_prerelease(pkgs: Seq<NuspecView>)
    ensures
        shown(pkgs, true) == pkgs,
    decreases pkgs.len(),
{
    if pkgs.len() > 0 {
        law_shown_keeps_all_with_prerelease(pkgs.drop_last());
        assert(pkgs.drop_last().push(pkgs.last()) =~= pkgs);
    }
}

/// The total number of hits does not depend on the page asked for.
pub proof fn law_total_hits_ignores_paging(
    base: Seq<char>,
    pkgs: Seq<NuspecView>,
    skip1: Option<usize>,
    take1: Option<usize>,
    skip2: Option<usize>,
    take2: Option<usize>,
    prerelease: Option<bool>,
)
    ensures
        search_index_of(base, pkgs, skip1, take1, prerelease).total_hits == search_index_of(
            base,
            pkgs,
            skip2,
            take2,
            prerelease,
        ).total_hits,
{
}

/// A page holds at most `take` items (20 by default): those after the first `skip`.
pub proof fn law_page_bounded(
    base: Seq<char>,
    pkgs: Seq<NuspecView>,
    skip: Option<usize>,
    take: Option<usize>,
    prerelease: Option<bool>,
)
    ensures
        search_index_of(base, pkgs, skip, take, prerelease).data.len() <= match take {
            Some(t) => t as nat,
            None => DEFAULT_TAKE as nat,
        },
{
}

/// Each package appears once in the results, in increasing order of lower-cased id.
pub proof fn law_results_ordered_by_id(
    base: Seq<char>,
    pkgs: Seq<NuspecView>,
    skip: Option<usize>,
    take: Option<usize>,
    prerelease: Option<bool>,
)
    ensures
        forall|i: int, j: int|
            0 <= i < j < search_index_of(base, pkgs, skip, take, prerelease).data.len() ==> chars_order(
                #[trigger] search_index_of(base, pkgs, skip, take, prerelease).data[i].id,
                #[trigger] search_index_of(base, pkgs, skip, take, prerelease).data[j].id,
            ) < 0,
{
    if pkgs.len() > 0 {
        let vis = shown(sorted_packages(pkgs, false), prerelease == Some(true));
        let g = grouping(vis);
        law_grouping_exists(vis);
        let items = search_items(base, g);
        let d = search_index_of(base, pkgs, skip, take, prerelease).data;
        let s: nat = match skip {
            Some(n) => n as nat,
            None => 0,
        };
        let t: nat = match take {
            Some(n) => n as nat,
            None => DEFAULT_TAKE as nat,
        };
        assert(d == page_of(items, s, t));
        assert forall|i: int, j: int| 0 <= i < j < d.len() implies chars_order(
            #[trigger] d[i].id,
            #[trigger] d[j].id,
        ) < 0 by {
            assert(d[i] == items[s + i] && d[j] == items[s + j]);
            assert(items[s + i].id == g[s + i].0 && items[s + j].id == g[s + j].0);
        }
    }
}

/// A search result shows the highest of its package's versions.
pub proof fn law_item_shows_highest_version(group: Seq<NuspecView>)
    requires
        0 < group.len() <= usize::MAX,
    ensures
        forall|k: int|
            0 <= k < group.len() ==> version_order(
                (#[trigger] group[k]).version,
                sorted_packages(group, false).last().version,
            ) <= 0,
{
    law_sorted_packages_ordered(group, false);
    let sorted = sorted_packages(group, false);
    let n = group.len();
    assert forall|k: int| 0 <= k < group.len() implies version_order(
        (#[trigger] group[k]).version,
        sorted_packages(group, false).last().version,
    ) <= 0 by {
        assert(sorted.contains(group[k]));
        let i = choose|i: int| 0 <= i < sorted.len() && sorted[i] == group[k];
        law_order_reflexive(group[k].version);
        if i < n - 1 {
            assert(version_order(sorted[i].version, sorted[n - 1].version) <= 0);
        }
    }
}

/// The packages of `pkgs` that search shows.
fn keep_shown(pkgs: &Vec<Nuspec>, prerelease: bool) -> (r: Vec<Nuspec>)
    ensures
        packages_view(r@) == shown(packages_view(pkgs@), prerelease),
{
    let ghost pv = packages_view(pkgs@);
    let mut r: Vec<Nuspec> = Vec::new();
    let n = pkgs.len();
    for i in 0..n
        invariant
            n == pkgs@.len(),
            pv == packages_view(pkgs@),
            packages_view(r@) == shown(pv.take(i as int), prerelease),
    {
        assert(pv.take(i + 1).drop_last() == pv.take(i as int));
        assert(pv.take(i + 1).last() == pkgs@[i as int]@);
        if prerelease || pkgs[i].version.prerelease.is_none() {
            let ghost before = r@;
            r.push(pkgs[i].clone());
            assert(packages_view(r@) =~= packages_view(before).push(pkgs@[i as int]@));
        }
    }
    assert(pv.take(n as int) == pv);
    r
}

impl SearchIndex {
    /// The search index of `package` (see [`search_index_of`]).
    pub fn new(
        base_url: &str,
        package: &[Nuspec],
        skip: Option<usize>,
        take: Option<usize>,
        prerelease: Option<bool>,
    ) -> (r: SearchIndex)
        ensures
            r@ == search_index_of(base_url@, packages_view(package@), skip, take, prerelease),
    {
        if package.len() == 0 {
            return SearchIndex::default();
        }
        let sorted = sort_packages(package, false);
        let include_prerelease = match prerelease {
            Some(b) => b,
            None => false,
        };
        let visible = keep_shown(&sorted, include_prerelease);
        let groups = group_by_id(visible.as_slice());
        let ghost g = groups_of_view(groups@);
        let ghost items = search_items(base_url@, g);
        let skip = match skip {
            Some(s) => s,
            None => 0,
        };
        let take = match take {
            Some(t) => t,
            None => DEFAULT_TAKE,
        };
        let n = groups.len();
        let lo = if skip < n {
            skip
        } else {
            n
        };
        let hi = if take >= n - lo {
            n
        } else {
            lo + take
        };
        let mut data: Vec<SearchIndexItem> = Vec::new();
        for i in lo..hi
            invariant
                n == groups@.len(),
                g == groups_of_view(groups@),
                is_grouping(packages_view(visible@), g),
                items == search_items(base_url@, g),
                lo <= hi <= n,
                data@.len() == i - lo,
                forall|k: int| 0 <= k < i - lo ==> #[trigger] data@[k]@ == items[lo + k],
        {
            assert(g[i as int].1.len() > 0);
            let item = Self::create_index_item(base_url, groups[i].0.as_str(), groups[i].1.as_slice());
            data.push(item);
        }
        let total_hits = #[verifier::truncate] (n as u32);
        let r = SearchIndex { total_hits, data };
        assert(r@.data =~= page_of(items, skip as nat, take as nat));
        r
    }

    /// The search result for the package `package_id` with the versions `package`.
    fn create_index_item(base_url: &str, package_id: &str, package: &[Nuspec]) -> (r: SearchIndexItem)
        requires
            package@.len() > 0,
        ensures
            r@ == search_item_of(base_url@, package_id@, packages_view(package@)),
    {
        let sorted = sort_packages(package, false);
        let latest = sorted[sorted.len() - 1].clone();
        let pieces = split_chars(&chars_of(latest.authors.as_str()), ',');
        let authors = strings_of(&pieces);
        let versions = Self::create_search_versions(base_url, package_id, &sorted);
        SearchIndexItem {
            at_id: RegistrationIndex::registration_index_url(base_url, package_id),
            at_type: "Package".to_owned(),
            registration: RegistrationIndex::registration_index_url(base_url, package_id),
            id: package_id.to_owned(),
            version: latest.version.to_string(),
            description: latest.description,
            authors,
            tags: latest.tags,
            total_downloads: DOWNLOADS,
            verified: true,
            versions,
        }
    }

    /// One search version per package, in order.
    fn create_search_versions(base_url: &str, package_id: &str, package: &Vec<Nuspec>) -> (r: Vec<
        SearchVersion,
    >)
        ensures
            r@.map_values(|v: SearchVersion| v@) == packages_view(package@).map_values(
                |p: NuspecView| search_version_of(base_url@, package_id@, p),
            ),
    {
        let mut r: Vec<SearchVersion> = Vec::new();
        let n = package.len();
        for i in 0..n
            invariant
                n == package@.len(),
                r@.len() == i,
                forall|k: int| 0 <= k < i ==> #[trigger] r@[k]@ == search_version_of(
                    base_url@,
                    package_id@,
                    package@[k]@,
                ),
        {
            let version = package[i].version.to_string();
            let at_id = RegistrationIndex::registration_url(base_url, package_id, version.as_str());
            r.push(SearchVersion { at_id, version, downloads: DOWNLOADS });
        }
        assert(r@.map_values(|v: SearchVersion| v@) =~= packages_view(package@).map_values(
            |p: NuspecView| search_version_of(base_url@, package_id@, p),
        ));
        r
    }
}

} // verus!
