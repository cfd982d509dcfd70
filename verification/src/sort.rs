//! Stable ordering of versions by precedence.
use vstd::prelude::*;
use crate::app_state::packages_view;
use crate::nuspec::{Nuspec, NuspecView};
use crate::package_index::{versions_in, versions_of};
use crate::seqs::{first_where, lemma_first_where};
use crate::nuget_version::{
    NugetVersion, NugetVersionView, law_order_antisymmetric, law_order_transitive, version_order,
};

verus! {

/// The views of a sequence of versions.
pub open spec fn versions_view(v: Seq<NugetVersion>) -> Seq<NugetVersionView> {
    v.map_values(|x: NugetVersion| x@)
}

/// In a stable sort of `vs`, the element at index `a` comes before the one at index `b`:
/// it has lower precedence (higher, when `descending`), or the same precedence and an
/// earlier place.
pub open spec fn precedes(vs: Seq<NugetVersionView>, a: usize, b: usize, descending: bool) -> bool {
    let o = version_order(vs[a as int], vs[b as int]);
    if descending {
        o > 0 || (o == 0 && a < b)
    } else {
        o < 0 || (o == 0 && a < b)
    }
}

/// `idx` lists every index of `vs` exactly once, in the order of a stable sort by
/// precedence (ascending, or descending when `descending`).
pub open spec fn is_stable_sort(vs: Seq<NugetVersionView>, idx: Seq<usize>, descending: bool) -> bool {
    &&& idx.len() == vs.len()
    &&& forall|i: int| 0 <= i < idx.len() ==> #[trigger] idx[i] < vs.len()
    &&& forall|i: int, j: int| 0 <= i < j < idx.len() ==> idx[i] != idx[j]
    &&& forall|x: usize| x < vs.len() ==> #[trigger] idx.contains(x)
    &&& forall|i: int, j: int|
        0 <= i < j < idx.len() ==> precedes(vs, #[trigger] idx[i], #[trigger] idx[j], descending)
}

/// The order of a stable sort of `vs` by precedence (there is exactly one).
pub open spec fn stable_order(vs: Seq<NugetVersionView>, descending: bool) -> Seq<usize> {
    choose|idx: Seq<usize>| is_stable_sort(vs, idx, descending)
}

proof fn lemma_precedes_asymmetric(vs: Seq<NugetVersionView>, a: usize, b: usize, descending: bool)
    requires
        a < vs.len(),
        b < vs.len(),
        precedes(vs, a, b, descending),
    ensures
        !precedes(vs, b, a, descending),
{
    law_order_antisymmetric(vs[a as int], vs[b as int]);
}

proof fn lemma_sorted_unique(vs: Seq<NugetVersionView>, a: Seq<usize>, b: Seq<usize>, descending: bool)
    requires
        a.len() == b.len(),
        forall|i: int| 0 <= i < a.len() ==> #[trigger] a[i] < vs.len(),
        forall|i: int| 0 <= i < b.len() ==> #[trigger] b[i] < vs.len(),
        forall|i: int, j: int| 0 <= i < j < a.len() ==> a[i] != a[j],
        forall|i: int, j: int| 0 <= i < j < b.len() ==> b[i] != b[j],
        forall|x: usize| #[trigger] a.contains(x) <==> b.contains(x),
        forall|i: int, j: int|
            0 <= i < j < a.len() ==> precedes(vs, #[trigger] a[i], #[trigger] a[j], descending),
        forall|i: int, j: int|
            0 <= i < j < b.len() ==> precedes(vs, #[trigger] b[i], #[trigger] b[j], descending),
    ensures
        a == b,
    decreases a.len(),
{
    if a.len() > 0 {
        let x = a[0];
        let y = b[0];
        if x != y {
            assert(a.contains(x));
            assert(b.contains(x));
            let k = choose|k: int| 0 <= k < b.len() && b[k] == x;
            assert(b.contains(y));
            assert(a.contains(y));
            let m = choose|m: int| 0 <= m < a.len() && a[m] == y;
            assert(k != 0 && m != 0);
            assert(precedes(vs, b[0], b[k], descending));
            assert(precedes(vs, a[0], a[m], descending));
            lemma_precedes_asymmetric(vs, y, x, descending);
        }
        let a1 = a.drop_first();
        let b1 = b.drop_first();
        assert forall|z: usize| #[trigger] a1.contains(z) <==> b1.contains(z) by {
            if a1.contains(z) {
                let i = choose|i: int| 0 <= i < a1.len() && a1[i] == z;
                assert(a[i + 1] == z);
                assert(z != x);
                assert(a.contains(z));
                assert(b.contains(z));
                let j = choose|j: int| 0 <= j < b.len() && b[j] == z;
                assert(j != 0);
                assert(b1[j - 1] == z);
            }
            if b1.contains(z) {
                let i = choose|i: int| 0 <= i < b1.len() && b1[i] == z;
                assert(b[i + 1] == z);
                assert(z != y);
                assert(b.contains(z));
                assert(a.contains(z));
                let j = choose|j: int| 0 <= j < a.len() && a[j] == z;
                assert(j != 0);
                assert(a1[j - 1] == z);
            }
        }
        assert forall|i: int, j: int| 0 <= i < j < a1.len() implies precedes(
            vs,
            #[trigger] a1[i],
            #[trigger] a1[j],
            descending,
        ) by {
            assert(a1[i] == a[i + 1] && a1[j] == a[j + 1]);
        }
        assert forall|i: int, j: int| 0 <= i < j < b1.len() implies precedes(
            vs,
            #[trigger] b1[i],
            #[trigger] b1[j],
            descending,
        ) by {
            assert(b1[i] == b[i + 1] && b1[j] == b[j + 1]);
        }
        lemma_sorted_unique(vs, a1, b1, descending);
        assert(x == y);
        assert forall|i: int| 0 <= i < a.len() implies a[i] == b[i] by {
            if i > 0 {
                assert(a[i] == a1[i - 1]);
                assert(b[i] == b1[i - 1]);
            }
        }
        assert(a =~= b);
    } else {
        assert(a =~= b);
    }
}

/// A stable sort by precedence is determined by the versions alone: any two orders that
/// both satisfy `is_stable_sort` are the same.
pub proof fn law_stable_sort_unique(
    vs: Seq<NugetVersionView>,
    a: Seq<usize>,
    b: Seq<usize>,
    descending: bool,
)
    requires
        is_stable_sort(vs, a, descending),
        is_stable_sort(vs, b, descending),
    ensures
        a == b,
{
    assert forall|x: usize| #[trigger] a.contains(x) <==> b.contains(x) by {
        if a.contains(x) {
            let i = choose|i: int| 0 <= i < a.len() && a[i] == x;
            assert(x < vs.len());
        }
        if b.contains(x) {
            let i = choose|i: int| 0 <= i < b.len() && b[i] == x;
            assert(x < vs.len());
        }
    }
    lemma_sorted_unique(vs, a, b, descending);
}

/// A sort that satisfies `is_stable_sort` is the stable order.
pub proof fn lemma_stable_order(vs: Seq<NugetVersionView>, idx: Seq<usize>, descending: bool)
    requires
        is_stable_sort(vs, idx, descending),
    ensures
        stable_order(vs, descending) == idx,
        is_stable_sort(vs, stable_order(vs, descending), descending),
{
    law_stable_sort_unique(vs, stable_order(vs, descending), idx, descending);
}

proof fn lemma_precedes_trans(vs: Seq<NugetVersionView>, a: usize, b: usize, c: usize, descending: bool)
    requires
        a < vs.len(),
        b < vs.len(),
        c < vs.len(),
        precedes(vs, a, b, descending),
        precedes(vs, b, c, descending),
    ensures
        precedes(vs, a, c, descending),
{
    let (x, y, z) = (vs[a as int], vs[b as int], vs[c as int]);
    law_order_antisymmetric(x, y);
    law_order_antisymmetric(y, z);
    law_order_antisymmetric(x, z);
    if descending {
        law_order_transitive(z, y, x);
        if version_order(x, y) == 0 && version_order(y, z) == 0 {
            law_order_transitive(x, y, z);
        }
    } else {
        law_order_transitive(x, y, z);
        if version_order(x, y) == 0 && version_order(y, z) == 0 {
            law_order_transitive(z, y, x);
        }
    }
}

/// The indices that the index `j` does not come after.
pub open spec fn not_before(vs: Seq<NugetVersionView>, j: usize, descending: bool) -> spec_fn(usize) -> bool {
    |i: usize| !precedes(vs, i, j, descending)
}

/// Where the index `j` goes among the sorted indices `idx`: after every index that
/// precedes it.
pub open spec fn sort_slot(vs: Seq<NugetVersionView>, idx: Seq<usize>, j: usize, descending: bool) -> int {
    match first_where(idx, not_before(vs, j, descending)) {
        Some(q) => q,
        None => idx.len() as int,
    }
}

/// The first `n` indices, inserted one after another each where it belongs.
pub open spec fn sorted_built(vs: Seq<NugetVersionView>, descending: bool, n: nat) -> Seq<usize>
    decreases n,
{
    if n == 0 {
        Seq::<usize>::empty()
    } else {
        let idx = sorted_built(vs, descending, (n - 1) as nat);
        let j = (n - 1) as usize;
        idx.insert(sort_slot(vs, idx, j, descending), j)
    }
}

/// `idx` is a stable sort of the first `n` indices.
pub open spec fn sorts_prefix(vs: Seq<NugetVersionView>, idx: Seq<usize>, n: nat, descending: bool) -> bool {
    &&& idx.len() == n
    &&& forall|i: int| 0 <= i < idx.len() ==> #[trigger] idx[i] < n
    &&& forall|i: int, k: int| 0 <= i < k < idx.len() ==> idx[i] != idx[k]
    &&& forall|x: usize| x < n ==> #[trigger] idx.contains(x)
    &&& forall|i: int, k: int|
        0 <= i < k < idx.len() ==> precedes(vs, #[trigger] idx[i], #[trigger] idx[k], descending)
}

proof fn lemma_sorted_built(vs: Seq<NugetVersionView>, descending: bool, n: nat)
    requires
        n <= vs.len(),
        vs.len() <= usize::MAX,
    ensures
        sorts_prefix(vs, sorted_built(vs, descending, n), n, descending),
    decreases n,
{
    if n > 0 {
        let m = (n - 1) as nat;
        lemma_sorted_built(vs, descending, m);
        let old_idx = sorted_built(vs, descending, m);
        let j = m as usize;
        let p = sort_slot(vs, old_idx, j, descending);
        let idx = old_idx.insert(p, j);
        assert(sorted_built(vs, descending, n) == idx);
        lemma_first_where(old_idx, not_before(vs, j, descending));
        assert forall|q: int| 0 <= q < p implies precedes(vs, #[trigger] old_idx[q], j, descending) by {
            assert(!(not_before(vs, j, descending))(old_idx[q]));
        }
        if p < old_idx.len() {
            assert((not_before(vs, j, descending))(old_idx[p]));
            law_order_antisymmetric(vs[old_idx[p] as int], vs[j as int]);
            assert(precedes(vs, j, old_idx[p], descending));
            assert forall|q: int| p <= q < old_idx.len() implies precedes(
                vs,
                j,
                #[trigger] old_idx[q],
                descending,
            ) by {
                if q > p {
                    assert(precedes(vs, old_idx[p], old_idx[q], descending));
                    lemma_precedes_trans(vs, j, old_idx[p], old_idx[q], descending);
                }
            }
        }
        old_idx.insert_ensures(p, j);
        assert forall|i: int, k: int| 0 <= i < k < idx.len() implies precedes(
            vs,
            #[trigger] idx[i],
            #[trigger] idx[k],
            descending,
        ) && idx[i] != idx[k] by {
            if k < p {
                assert(idx[i] == old_idx[i] && idx[k] == old_idx[k]);
            } else if k == p {
                assert(idx[i] == old_idx[i]);
            } else if i < p {
                assert(idx[i] == old_idx[i] && idx[k] == old_idx[k - 1]);
            } else if i == p {
                assert(idx[k] == old_idx[k - 1]);
            } else {
                assert(idx[i] == old_idx[i - 1] && idx[k] == old_idx[k - 1]);
            }
        }
        assert forall|x: usize| x < n implies #[trigger] idx.contains(x) by {
            if x == j {
                assert(idx[p] == j);
            } else {
                assert(old_idx.contains(x));
                let i = choose|i: int| 0 <= i < old_idx.len() && old_idx[i] == x;
                if i < p {
                    assert(idx[i] == x);
                } else {
                    assert(idx[i + 1] == x);
                }
            }
        }
        assert forall|i: int| 0 <= i < idx.len() implies #[trigger] idx[i] < n by {
            if i < p {
                assert(idx[i] == old_idx[i]);
            } else if i > p {
                assert(idx[i] == old_idx[i - 1]);
            }
        }
    }
}

/// Every list of versions has its stable sort, ascending and descending.
pub proof fn law_stable_sort_exists(vs: Seq<NugetVersionView>, descending: bool)
    requires
        vs.len() <= usize::MAX,
    ensures
        is_stable_sort(vs, stable_order(vs, descending), descending),
{
    lemma_sorted_built(vs, descending, vs.len());
    lemma_stable_order(vs, sorted_built(vs, descending, vs.len()), descending);
}

/// The indices of `versions` in the order of a stable sort by precedence: ascending,
/// or descending when `descending` (`slice::sort` / `sort_by` with a reversed comparison).
pub fn stable_sort_by_version(versions: &Vec<NugetVersion>, descending: bool) -> (idx: Vec<usize>)
    ensures
        is_stable_sort(versions_view(versions@), idx@, descending),
        idx@ == stable_order(versions_view(versions@), descending),
{
    let ghost vs = versions_view(versions@);
    let mut idx: Vec<usize> = Vec::new();
    let n = versions.len();
    for j in 0..n
        invariant
            n == versions@.len(),
            vs == versions_view(versions@),
            idx@.len() == j,
            forall|i: int| 0 <= i < idx@.len() ==> #[trigger] idx@[i] < j,
            forall|i: int, k: int| 0 <= i < k < idx@.len() ==> idx@[i] != idx@[k],
            forall|x: usize| x < j ==> #[trigger] idx@.contains(x),
            forall|i: int, k: int|
                0 <= i < k < idx@.len() ==> precedes(vs, #[trigger] idx@[i], #[trigger] idx@[k], descending),
    {
        let mut p: usize = 0;
        loop
            invariant
                n == versions@.len(),
                vs == versions_view(versions@),
                j < n,
                p <= idx@.len(),
                idx@.len() == j,
                forall|i: int| 0 <= i < idx@.len() ==> #[trigger] idx@[i] < j,
                forall|q: int| 0 <= q < p ==> precedes(vs, #[trigger] idx@[q], j, descending),
            ensures
                p <= idx@.len(),
                forall|q: int| 0 <= q < p ==> precedes(vs, #[trigger] idx@[q], j, descending),
                p < idx@.len() ==> if descending {
                    version_order(vs[idx@[p as int] as int], vs[j as int]) < 0
                } else {
                    version_order(vs[idx@[p as int] as int], vs[j as int]) > 0
                },
            decreases idx@.len() - p,
        {
            if p == idx.len() {
                break;
            }
            let c = versions[idx[p]].compare(&versions[j]);
            let after = if descending {
                c < 0
            } else {
                c > 0
            };
            if after {
                break;
            }
            p = p + 1;
        }
        let ghost old_idx = idx@;
        proof {
            if p < old_idx.len() {
                law_order_antisymmetric(vs[old_idx[p as int] as int], vs[j as int]);
                assert(precedes(vs, j, old_idx[p as int], descending));
                assert forall|q: int| p <= q < old_idx.len() implies precedes(
                    vs,
                    j,
                    #[trigger] old_idx[q],
                    descending,
                ) by {
                    if q > p {
                        assert(precedes(vs, old_idx[p as int], old_idx[q], descending));
                        lemma_precedes_trans(vs, j, old_idx[p as int], old_idx[q], descending);
                    }
                }
            }
            old_idx.insert_ensures(p as int, j);
        }
        idx.insert(p, j);
        assert forall|i: int, k: int| 0 <= i < k < idx@.len() implies precedes(
            vs,
            #[trigger] idx@[i],
            #[trigger] idx@[k],
            descending,
        ) && idx@[i] != idx@[k] by {
            if k < p {
                assert(idx@[i] == old_idx[i] && idx@[k] == old_idx[k]);
            } else if k == p {
                assert(idx@[i] == old_idx[i]);
            } else if i < p {
                assert(idx@[i] == old_idx[i] && idx@[k] == old_idx[k - 1]);
            } else if i == p {
                assert(idx@[k] == old_idx[k - 1]);
            } else {
                assert(idx@[i] == old_idx[i - 1] && idx@[k] == old_idx[k - 1]);
            }
        }
        assert forall|x: usize| x < j + 1 implies #[trigger] idx@.contains(x) by {
            if x == j {
                assert(idx@[p as int] == j);
            } else {
                assert(old_idx.contains(x));
                let i = choose|i: int| 0 <= i < old_idx.len() && old_idx[i] == x;
                if i < p {
                    assert(idx@[i] == x);
                } else {
                    assert(idx@[i + 1] == x);
                }
            }
        }
        assert forall|i: int| 0 <= i < idx@.len() implies #[trigger] idx@[i] < j + 1 by {
            if i < p {
                assert(idx@[i] == old_idx[i]);
            } else if i > p {
                assert(idx@[i] == old_idx[i - 1]);
            }
        }
    }
    proof {
        lemma_stable_order(vs, idx@, descending);
    }
    idx
}

/// The packages in the order of a stable sort by version: ascending, or descending
/// when `descending`.
pub open spec fn sorted_packages(pkgs: Seq<NuspecView>, descending: bool) -> Seq<NuspecView> {
    stable_order(versions_of(pkgs), descending).map_values(|i: usize| pkgs[i as int])
}

/// A copy of the packages in the order of a stable sort by version: ascending, or
/// descending when `descending`.
pub fn sort_packages(package: &[Nuspec], descending: bool) -> (r: Vec<Nuspec>)
    ensures
        packages_view(r@) == sorted_packages(packages_view(package@), descending),
        r@.len() == package@.len(),
{
    let ghost pv = packages_view(package@);
    let versions = versions_in(package);
    let idx = stable_sort_by_version(&versions, descending);
    let ghost vs = versions_view(versions@);
    let n = idx.len();
    let mut r: Vec<Nuspec> = Vec::new();
    for i in 0..n
        invariant
            n == idx@.len(),
            pv == packages_view(package@),
            vs == versions_of(pv),
            idx@ == stable_order(vs, descending),
            is_stable_sort(vs, idx@, descending),
            r@.len() == i,
            forall|k: int| 0 <= k < i ==> #[trigger] r@[k]@ == pv[idx@[k] as int],
    {
        let j = idx[i];
        assert(j < vs.len());
        r.push(package[j].clone());
    }
    assert(packages_view(r@) =~= sorted_packages(pv, descending));
    r
}

/// Sorting packages by version puts them in order of precedence (ascending, or
/// descending when `descending`) and keeps every package.
pub proof fn law_sorted_packages_ordered(pkgs: Seq<NuspecView>, descending: bool)
    requires
        pkgs.len() <= usize::MAX,
    ensures
        sorted_packages(pkgs, descending).len() == pkgs.len(),
        forall|i: int, k: int|
            0 <= i < k < pkgs.len() ==> {
                let o = version_order(
                    (#[trigger] sorted_packages(pkgs, descending)[i]).version,
                    (#[trigger] sorted_packages(pkgs, descending)[k]).version,
                );
                if descending {
                    o >= 0
                } else {
                    o <= 0
                }
            },
        forall|j: int| 0 <= j < pkgs.len() ==> sorted_packages(pkgs, descending).contains(#[trigger] pkgs[j]),
{
    let vs = versions_of(pkgs);
    law_stable_sort_exists(vs, descending);
    let idx = stable_order(vs, descending);
    let sorted = sorted_packages(pkgs, descending);
    assert forall|i: int, k: int| 0 <= i < k < pkgs.len() implies {
        let o = version_order(
            (#[trigger] sorted_packages(pkgs, descending)[i]).version,
            (#[trigger] sorted_packages(pkgs, descending)[k]).version,
        );
        if descending {
            o >= 0
        } else {
            o <= 0
        }
    } by {
        assert(precedes(vs, idx[i], idx[k], descending));
        assert(sorted[i] == pkgs[idx[i] as int] && sorted[k] == pkgs[idx[k] as int]);
        assert(vs[idx[i] as int] == pkgs[idx[i] as int].version);
        assert(vs[idx[k] as int] == pkgs[idx[k] as int].version);
    }
    assert forall|j: int| 0 <= j < pkgs.len() implies sorted_packages(pkgs, descending).contains(
        #[trigger] pkgs[j],
    ) by {
        assert(idx.contains(j as usize));
        let i = choose|i: int| 0 <= i < idx.len() && idx[i] == j as usize;
        assert(sorted[i] == pkgs[j]);
    }
}

} // verus!
