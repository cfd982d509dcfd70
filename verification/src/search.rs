//! The search request: which packages a query picks, and the page of results for them.
use vstd::prelude::*;
use fuzzy_matcher::FuzzyMatcher;
use fuzzy_matcher::skim::SkimMatcherV2;
use crate::app_state::packages_view;
use crate::nuspec::{Nuspec, NuspecView};
use crate::search_index::{SearchIndex, search_index_of};
use crate::text::ascii_lower_char;

verus! {

/// The parameters of a search request.
pub struct SearchQuery {
    /// The text to look for in package ids; none or empty matches every package.
    pub q: Option<String>,
    pub skip: Option<usize>,
    pub take: Option<usize>,
    pub prerelease: Option<bool>,
}

/// The characters of `pattern` occur in `choice` in order, letters compared ignoring
/// ASCII case.
pub open spec fn fuzzy_contains(choice: Seq<char>, pattern: Seq<char>) -> bool
    decreases choice.len(),
{
    if pattern.len() == 0 {
        true
    } else if choice.len() == 0 {
        false
    } else if ascii_lower_char(choice[0]) == ascii_lower_char(pattern[0]) {
        fuzzy_contains(choice.drop_first(), pattern.drop_first())
    } else {
        fuzzy_contains(choice.drop_first(), pattern)
    }
}

/// `SkimMatcherV2::default().ignore_case().fuzzy_match(choice, pattern)` finds a match
/// (returns a score). In its source an empty pattern always matches, and otherwise a
/// match is found exactly when its first pass (`cheap_matches`, which compares
/// characters with `eq_ignore_ascii_case`) finds every pattern character in order in
/// `choice`; the score itself is not used here.
#[verifier::external_body]
fn fuzzy_match(choice: &str, pattern: &str) -> (r: bool)
    ensures
        r == fuzzy_contains(choice@, pattern@),
{
    SkimMatcherV2::default().ignore_case().fuzzy_match(choice, pattern).is_some()
}

/// The packages, in order, whose id fuzzily contains `query`.
pub open spec fn matching(pkgs: Seq<NuspecView>, query: Seq<char>) -> Seq<NuspecView>
    decreases pkgs.len(),
{
    if pkgs.len() == 0 {
        Seq::<NuspecView>::empty()
    } else {
        let pre = matching(pkgs.drop_last(), query);
        if fuzzy_contains(pkgs.last().id, query) {
            pre.push(pkgs.last())
        } else {
            pre
        }
    }
}

/// Every package a query picks has an id that fuzzily contains the query.
pub proof fn law_matches_contain_query(pkgs: Seq<NuspecView>, query: Seq<char>)
    ensures
        forall|i: int|
            0 <= i < matching(pkgs, query).len() ==> fuzzy_contains(
                (#[trigger] matching(pkgs, query)[i]).id,
                query,
            ),
    decreases pkgs.len(),
{
    if pkgs.len() > 0 {
        law_matches_contain_query(pkgs.drop_last(), query);
    }
}

/// An empty query picks every package.
pub proof fn law_empty_query_picks_all(pkgs: Seq<NuspecView>)
    ensures
        searched(pkgs, Seq::<char>::empty()) == pkgs,
{
}

/// The query text: `q`, or empty.
pub open spec fn query_text(q: Option<Seq<char>>) -> Seq<char> {
    match q {
        Some(t) => t,
        None => Seq::<char>::empty(),
    }
}

/// The packages a query text picks: every package for an empty text, else those whose
/// id fuzzily contains it.
pub open spec fn searched(pkgs: Seq<NuspecView>, query: Seq<char>) -> Seq<NuspecView> {
    if query.len() == 0 {
        pkgs
    } else {
        matching(pkgs, query)
    }
}

/// The packages of `contents` whose id fuzzily contains `query`.
fn matching_packages(contents: &[Nuspec], query: &str) -> (r: Vec<Nuspec>)
    ensures
        packages_view(r@) == matching(packages_view(contents@), query@),
{
    let ghost pv = packages_view(contents@);
    let mut r: Vec<Nuspec> = Vec::new();
    let n = contents.len();
    for i in 0..n
        invariant
            n == contents@.len(),
            pv == packages_view(contents@),
            packages_view(r@) == matching(pv.take(i as int), query@),
    {
        assert(pv.take(i + 1).drop_last() == pv.take(i as int));
        assert(pv.take(i + 1).last() == contents@[i as int]@);
        if fuzzy_match(contents[i].id.as_str(), query) {
            let ghost before = r@;
            r.push(contents[i].clone());
            assert(packages_view(r@) =~= packages_view(before).push(contents@[i as int]@));
        }
    }
    assert(pv.take(n as int) == pv);
    r
}

/// The search results for the request `q` over the packages `contents`.
pub fn get_search(base_url: &str, contents: &[Nuspec], q: &SearchQuery) -> (r: SearchIndex)
    ensures
        r@ == search_index_of(
            base_url@,
            searched(packages_view(contents@), query_text(q.q.deep_view())),
            q.skip,
            q.take,
            q.prerelease,
        ),
{
    let query: &str = match &q.q {
        Some(t) => t.as_str(),
        None => "",
    };
    proof {
        reveal_strlit("");
    }
    if query.is_empty() {
        SearchIndex::new(base_url, contents, q.skip, q.take, q.prerelease)
    } else {
        let filtered = matching_packages(contents, query);
        SearchIndex::new(base_url, filtered.as_slice(), q.skip, q.take, q.prerelease)
    }
}

} // verus!
