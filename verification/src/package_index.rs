//! The list of a package's versions, newest first.
use vstd::prelude::*;
use crate::nuget_version::{NugetVersion, NugetVersionView, display, law_order_antisymmetric, version_order};
use crate::nuspec::{Nuspec, NuspecView};
use crate::app_state::packages_view;
use crate::sort::{
    is_stable_sort, law_stable_sort_exists, precedes, stable_order, stable_sort_by_version, versions_view,
};

verus! {

/// The versions of one package, as displayed, newest first.
pub struct PackageIndex {
    pub versions: Vec<String>,
}

/// The versions of the packages.
pub open spec fn versions_of(pkgs: Seq<NuspecView>) -> Seq<NugetVersionView> {
    pkgs.map_values(|p: NuspecView| p.version)
}

/// The versions of the packages, newest first: the reverse of a stable ascending sort
/// by precedence.
pub open spec fn newest_first_versions(pkgs: Seq<NuspecView>) -> Seq<NugetVersionView> {
    let vs = versions_of(pkgs);
    let idx = stable_order(vs, false);
    Seq::new(vs.len(), |i: int| vs[idx[vs.len() - 1 - i] as int])
}

/// The displayed versions of the packages, newest first.
pub open spec fn newest_first(pkgs: Seq<NuspecView>) -> Seq<Seq<char>> {
    newest_first_versions(pkgs).map_values(|v: NugetVersionView| display(v))
}

/// The versions are listed newest first: each has at least the precedence of every one
/// listed after it.
pub proof fn law_newest_first_ordered(pkgs: Seq<NuspecView>)
    requires
        pkgs.len() <= usize::MAX,
    ensures
        forall|i: int, k: int|
            0 <= i < k < pkgs.len() ==> version_order(
                #[trigger] newest_first_versions(pkgs)[i],
                #[trigger] newest_first_versions(pkgs)[k],
            ) >= 0,
{
    let vs = versions_of(pkgs);
    let n = vs.len();
    law_stable_sort_exists(vs, false);
    let idx = stable_order(vs, false);
    assert forall|i: int, k: int| 0 <= i < k < pkgs.len() implies version_order(
        #[trigger] newest_first_versions(pkgs)[i],
        #[trigger] newest_first_versions(pkgs)[k],
    ) >= 0 by {
        assert(precedes(vs, idx[n - 1 - k], idx[n - 1 - i], false));
        law_order_antisymmetric(vs[idx[n - 1 - k] as int], vs[idx[n - 1 - i] as int]);
    }
}

/// The versions of the packages, in order.
pub fn versions_in(package: &[Nuspec]) -> (r: Vec<NugetVersion>)
    ensures
        versions_view(r@) == versions_of(packages_view(package@)),
{
    let mut r: Vec<NugetVersion> = Vec::new();
    let n = package.len();
    for i in 0..n
        invariant
            n == package@.len(),
            r@.len() == i,
            versions_view(r@) == versions_of(packages_view(package@)).take(i as int),
    {
        let ghost before = r@;
        r.push(package[i].version.clone());
        assert(versions_view(r@) =~= versions_of(packages_view(package@)).take(i + 1));
    }
    assert(versions_of(packages_view(package@)).take(n as int) =~= versions_of(
        packages_view(package@),
    ));
    r
}

impl PackageIndex {
    /// The versions of `package`, newest first; `None` when there are none.
    pub fn new(package: &[Nuspec]) -> (r: Option<PackageIndex>)
        ensures
            r is Some == (package@.len() > 0),
            r matches Some(p) ==> p.versions.deep_view() == newest_first(packages_view(package@)),
    {
        let versions = versions_in(package);
        let idx = stable_sort_by_version(&versions, false);
        let ghost vs = versions_view(versions@);
        let n = versions.len();
        let mut result: Vec<String> = Vec::new();
        for i in 0..n
            invariant
                n == versions@.len(),
                vs == versions_view(versions@),
                is_stable_sort(vs, idx@, false),
                result@.len() == i,
                forall|k: int| 0 <= k < i ==> #[trigger] result@[k]@ == display(vs[idx@[n - 1 - k] as int]),
        {
            let j = idx[n - 1 - i];
            let s = versions[j].to_string();
            result.push(s);
        }
        assert(result.deep_view() =~= newest_first(packages_view(package@)));
        if result.len() > 0 {
            Some(PackageIndex { versions: result })
        } else {
            None
        }
    }
}

} // verus!
