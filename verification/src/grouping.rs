//! Packages grouped by id, ignoring case, in the order of their lower-cased ids.
use vstd::prelude::*;
use crate::app_state::packages_view;
use crate::nuspec::{Nuspec, NuspecView};
use crate::seqs::{first_where, lemma_first_where};
use crate::text::{
    chars_of, chars_order, compare_chars, lemma_chars_order_facts, lemma_chars_order_trans,
    to_lowercase, unicode_lowercase,
};

verus! {

/// A package's id, lower-cased: what groups it.
pub open spec fn key_of(p: NuspecView) -> Seq<char> {
    unicode_lowercase(p.id)
}

/// The packages of `s`, in order, whose lower-cased id is `k`.
pub open spec fn members(s: Seq<NuspecView>, k: Seq<char>) -> Seq<NuspecView>
    decreases s.len(),
{
    if s.len() == 0 {
        Seq::<NuspecView>::empty()
    } else {
        let pre = members(s.drop_last(), k);
        if key_of(s.last()) == k {
            pre.push(s.last())
        } else {
            pre
        }
    }
}

/// The keys of a grouping, in order.
pub open spec fn group_keys(g: Seq<(Seq<char>, Seq<NuspecView>)>) -> Seq<Seq<char>> {
    g.map_values(|x: (Seq<char>, Seq<NuspecView>)| x.0)
}

/// The keys of `g` increase strictly.
pub open spec fn keys_increase(g: Seq<(Seq<char>, Seq<NuspecView>)>) -> bool {
    forall|i: int, j: int|
        0 <= i < j < g.len() ==> chars_order(#[trigger] g[i].0, #[trigger] g[j].0) < 0
}

/// `g` groups `s`: one group per lower-cased id that occurs, in increasing order of
/// that id, each holding the packages with that id in their order in `s`.
pub open spec fn is_grouping(s: Seq<NuspecView>, g: Seq<(Seq<char>, Seq<NuspecView>)>) -> bool {
    &&& forall|i: int| 0 <= i < g.len() ==> (#[trigger] g[i]).1 == members(s, g[i].0)
    &&& forall|i: int| 0 <= i < g.len() ==> (#[trigger] g[i]).1.len() > 0
    &&& keys_increase(g)
    &&& forall|k: int| 0 <= k < s.len() ==> group_keys(g).contains(key_of(#[trigger] s[k]))
}

/// The grouping of `s` (there is exactly one: `law_grouping_unique`).
pub open spec fn grouping(s: Seq<NuspecView>) -> Seq<(Seq<char>, Seq<NuspecView>)> {
    choose|g: Seq<(Seq<char>, Seq<NuspecView>)>| is_grouping(s, g)
}

/// The views of groups.
pub open spec fn groups_of_view(g: Seq<(String, Vec<Nuspec>)>) -> Seq<(Seq<char>, Seq<NuspecView>)> {
    g.map_values(|x: (String, Vec<Nuspec>)| (x.0@, packages_view(x.1@)))
}

proof fn lemma_members_absent(s: Seq<NuspecView>, k: Seq<char>)
    requires
        forall|j: int| 0 <= j < s.len() ==> key_of(#[trigger] s[j]) != k,
    ensures
        members(s, k).len() == 0,
    decreases s.len(),
{
    if s.len() > 0 {
        assert forall|j: int| 0 <= j < s.drop_last().len() implies key_of(#[trigger] s.drop_last()[j]) != k by {
            assert(s.drop_last()[j] == s[j]);
        }
        lemma_members_absent(s.drop_last(), k);
    }
}

proof fn lemma_members_nonempty(s: Seq<NuspecView>, k: Seq<char>)
    requires
        members(s, k).len() > 0,
    ensures
        exists|j: int| 0 <= j < s.len() && key_of(#[trigger] s[j]) == k,
{
    if !(exists|j: int| 0 <= j < s.len() && key_of(#[trigger] s[j]) == k) {
        lemma_members_absent(s, k);
    }
}

proof fn lemma_members_push(s: Seq<NuspecView>, x: NuspecView)
    ensures
        members(s.push(x), key_of(x)) == members(s, key_of(x)).push(x),
        forall|k: Seq<char>| k != key_of(x) ==> #[trigger] members(s.push(x), k) == members(s, k),
{
    assert(s.push(x).drop_last() =~= s);
}

proof fn lemma_key_in_other(
    s: Seq<NuspecView>,
    g: Seq<(Seq<char>, Seq<NuspecView>)>,
    h: Seq<(Seq<char>, Seq<NuspecView>)>,
    x: Seq<char>,
)
    requires
        is_grouping(s, g),
        is_grouping(s, h),
        group_keys(g).contains(x),
    ensures
        group_keys(h).contains(x),
{
    let i = choose|i: int| 0 <= i < group_keys(g).len() && group_keys(g)[i] == x;
    assert(g[i].0 == x);
    assert(g[i].1.len() > 0);
    lemma_members_nonempty(s, x);
    let j = choose|j: int| 0 <= j < s.len() && key_of(#[trigger] s[j]) == x;
    assert(group_keys(h).contains(key_of(s[j])));
}

proof fn lemma_keys_unique(a: Seq<Seq<char>>, b: Seq<Seq<char>>)
    requires
        forall|x: Seq<char>| #[trigger] a.contains(x) <==> b.contains(x),
        forall|i: int, j: int| 0 <= i < j < a.len() ==> chars_order(#[trigger] a[i], #[trigger] a[j]) < 0,
        forall|i: int, j: int| 0 <= i < j < b.len() ==> chars_order(#[trigger] b[i], #[trigger] b[j]) < 0,
    ensures
        a == b,
    decreases a.len() + b.len(),
{
    if a.len() == 0 {
        if b.len() > 0 {
            assert(b.contains(b[0]));
            assert(a.contains(b[0]));
        }
        assert(a =~= b);
    } else if b.len() == 0 {
        assert(a.contains(a[0]));
        assert(b.contains(a[0]));
    } else {
        let x = a[0];
        let y = b[0];
        if x != y {
            assert(a.contains(x));
            assert(b.contains(x));
            let k = choose|k: int| 0 <= k < b.len() && b[k] == x;
            assert(b.contains(y));
            assert(a.contains(y));
            let m = choose|m: int| 0 <= m < a.len() && a[m] == y;
            assert(k != 0 && m != 0);
            assert(chars_order(b[0], b[k]) < 0);
            assert(chars_order(a[0], a[m]) < 0);
            lemma_chars_order_facts(x, y);
        }
        let a1 = a.drop_first();
        let b1 = b.drop_first();
        assert forall|z: Seq<char>| #[trigger] a1.contains(z) <==> b1.contains(z) by {
            if a1.contains(z) {
                let i = choose|i: int| 0 <= i < a1.len() && a1[i] == z;
                assert(a[i + 1] == z);
                assert(chars_order(a[0], a[i + 1]) < 0);
                lemma_chars_order_facts(a[0], z);
                assert(a.contains(z));
                assert(b.contains(z));
                let j = choose|j: int| 0 <= j < b.len() && b[j] == z;
                assert(j != 0);
                assert(b1[j - 1] == z);
            }
            if b1.contains(z) {
                let i = choose|i: int| 0 <= i < b1.len() && b1[i] == z;
                assert(b[i + 1] == z);
                assert(chars_order(b[0], b[i + 1]) < 0);
                lemma_chars_order_facts(b[0], z);
                assert(b.contains(z));
                assert(a.contains(z));
                let j = choose|j: int| 0 <= j < a.len() && a[j] == z;
                assert(j != 0);
                assert(a1[j - 1] == z);
            }
        }
        assert forall|i: int, j: int| 0 <= i < j < a1.len() implies chars_order(#[trigger] a1[i], #[trigger] a1[j]) < 0 by {
            assert(a1[i] == a[i + 1] && a1[j] == a[j + 1]);
        }
        assert forall|i: int, j: int| 0 <= i < j < b1.len() implies chars_order(#[trigger] b1[i], #[trigger] b1[j]) < 0 by {
            assert(b1[i] == b[i + 1] && b1[j] == b[j + 1]);
        }
        lemma_keys_unique(a1, b1);
        assert forall|i: int| 0 <= i < a.len() implies a[i] == b[i] by {
            if i > 0 {
                assert(a[i] == a1[i - 1]);
                assert(b[i] == b1[i - 1]);
            }
        }
        assert(a =~= b);
    }
}

proof fn lemma_keys_increase(g: Seq<(Seq<char>, Seq<NuspecView>)>)
    requires
        keys_increase(g),
    ensures
        forall|i: int, j: int|
            0 <= i < j < group_keys(g).len() ==> chars_order(
                #[trigger] group_keys(g)[i],
                #[trigger] group_keys(g)[j],
            ) < 0,
{
    assert forall|i: int, j: int| 0 <= i < j < group_keys(g).len() implies chars_order(
        #[trigger] group_keys(g)[i],
        #[trigger] group_keys(g)[j],
    ) < 0 by {
        assert(group_keys(g)[i] == g[i].0 && group_keys(g)[j] == g[j].0);
    }
}

/// The grouping of a list of packages is determined by the list: two groupings of the
/// same packages are the same.
pub proof fn law_grouping_unique(
    s: Seq<NuspecView>,
    g1: Seq<(Seq<char>, Seq<NuspecView>)>,
    g2: Seq<(Seq<char>, Seq<NuspecView>)>,
)
    requires
        is_grouping(s, g1),
        is_grouping(s, g2),
    ensures
        g1 == g2,
{
    let a = group_keys(g1);
    let b = group_keys(g2);
    assert forall|x: Seq<char>| #[trigger] a.contains(x) <==> b.contains(x) by {
        if a.contains(x) {
            lemma_key_in_other(s, g1, g2, x);
        }
        if b.contains(x) {
            lemma_key_in_other(s, g2, g1, x);
        }
    }
    lemma_keys_increase(g1);
    lemma_keys_increase(g2);
    lemma_keys_unique(a, b);
    assert(g1.len() == a.len() && g2.len() == b.len());
    assert forall|i: int| 0 <= i < g1.len() implies g1[i] == g2[i] by {
        assert(a[i] == g1[i].0 && b[i] == g2[i].0);
        assert(g1[i].1 == members(s, g1[i].0));
        assert(g2[i].1 == members(s, g2[i].0));
    }
    assert(g1 =~= g2);
}

/// A grouping is the grouping.
proof fn lemma_grouping(s: Seq<NuspecView>, g: Seq<(Seq<char>, Seq<NuspecView>)>)
    requires
        is_grouping(s, g),
    ensures
        grouping(s) == g,
{
    law_grouping_unique(s, grouping(s), g);
}

/// Adding a package whose lower-cased id has the group at `p` appends it to that group.
proof fn lemma_grouping_extend(
    prev: Seq<NuspecView>,
    g: Seq<(Seq<char>, Seq<NuspecView>)>,
    x: NuspecView,
    p: int,
)
    requires
        is_grouping(prev, g),
        0 <= p < g.len(),
        g[p].0 == key_of(x),
    ensures
        is_grouping(prev.push(x), g.update(p, (g[p].0, g[p].1.push(x)))),
{
    let cur = prev.push(x);
    let k = key_of(x);
    let g2 = g.update(p, (g[p].0, g[p].1.push(x)));
    lemma_members_push(prev, x);
    assert forall|q: int| 0 <= q < g2.len() implies (#[trigger] g2[q]).1 == members(cur, g2[q].0) by {
        if q != p {
            if q < p {
                lemma_chars_order_facts(g[q].0, g[p].0);
            } else {
                lemma_chars_order_facts(g[p].0, g[q].0);
            }
            assert(g2[q] == g[q]);
            assert(members(cur, g[q].0) == members(prev, g[q].0));
        }
    }
    assert(group_keys(g2) =~= group_keys(g));
    assert forall|j: int| 0 <= j < cur.len() implies group_keys(g2).contains(key_of(#[trigger] cur[j])) by {
        if j < prev.len() {
            assert(cur[j] == prev[j]);
        } else {
            assert(group_keys(g)[p] == k);
        }
    }
    assert forall|i: int, j: int| 0 <= i < j < g2.len() implies chars_order(#[trigger] g2[i].0, #[trigger] g2[j].0) < 0 by {
        assert(g2[i].0 == g[i].0 && g2[j].0 == g[j].0);
    }
}

/// Adding a package whose lower-cased id has no group yet opens a group for it at `p`,
/// where its id falls in the order of the keys.
proof fn lemma_grouping_insert(
    prev: Seq<NuspecView>,
    g: Seq<(Seq<char>, Seq<NuspecView>)>,
    x: NuspecView,
    p: int,
)
    requires
        is_grouping(prev, g),
        0 <= p <= g.len(),
        forall|q: int| 0 <= q < p ==> chars_order(#[trigger] g[q].0, key_of(x)) < 0,
        p < g.len() ==> chars_order(g[p].0, key_of(x)) > 0,
    ensures
        is_grouping(prev.push(x), g.insert(p, (key_of(x), seq![x]))),
{
    let cur = prev.push(x);
    let k = key_of(x);
    let g2 = g.insert(p, (k, seq![x]));
    g.insert_ensures(p, (k, seq![x]));
    lemma_members_push(prev, x);
    assert forall|q: int| p <= q < g.len() implies chars_order(k, #[trigger] g[q].0) < 0 by {
        lemma_chars_order_facts(g[p].0, k);
        if q > p {
            lemma_chars_order_trans(k, g[p].0, g[q].0);
        }
    }
    assert forall|j: int| 0 <= j < prev.len() implies key_of(#[trigger] prev[j]) != k by {
        assert(group_keys(g).contains(key_of(prev[j])));
        let q = choose|q: int| 0 <= q < group_keys(g).len() && group_keys(g)[q] == key_of(prev[j]);
        assert(g[q].0 == key_of(prev[j]));
        if q < p {
            lemma_chars_order_facts(g[q].0, k);
        } else {
            lemma_chars_order_facts(k, g[q].0);
        }
    }
    lemma_members_absent(prev, k);
    assert(members(cur, k) =~= seq![x]);
    assert forall|q: int| 0 <= q < g2.len() implies (#[trigger] g2[q]).1 == members(cur, g2[q].0) by {
        if q < p {
            lemma_chars_order_facts(g[q].0, k);
            assert(members(cur, g[q].0) == members(prev, g[q].0));
        } else if q > p {
            assert(g2[q] == g[q - 1]);
            lemma_chars_order_facts(k, g[q - 1].0);
            assert(members(cur, g[q - 1].0) == members(prev, g[q - 1].0));
        }
    }
    assert forall|q: int| 0 <= q < g2.len() implies (#[trigger] g2[q]).1.len() > 0 by {
        if q > p {
            assert(g2[q] == g[q - 1]);
        }
    }
    assert forall|i: int, j: int| 0 <= i < j < g2.len() implies chars_order(#[trigger] g2[i].0, #[trigger] g2[j].0) < 0 by {
        if j < p {
        } else if j == p {
        } else if i < p {
            assert(g2[j] == g[j - 1]);
            lemma_chars_order_trans(g[i].0, k, g[j - 1].0);
        } else if i == p {
            assert(g2[j] == g[j - 1]);
        } else {
            assert(g2[i] == g[i - 1] && g2[j] == g[j - 1]);
        }
    }
    assert forall|j: int| 0 <= j < cur.len() implies group_keys(g2).contains(key_of(#[trigger] cur[j])) by {
        if j < prev.len() {
            assert(cur[j] == prev[j]);
            assert(group_keys(g).contains(key_of(prev[j])));
            let q = choose|q: int| 0 <= q < group_keys(g).len() && group_keys(g)[q] == key_of(prev[j]);
            if q < p {
                assert(group_keys(g2)[q] == g[q].0);
            } else {
                assert(g2[q + 1] == g[q]);
                assert(group_keys(g2)[q + 1] == g[q].0);
            }
        } else {
            assert(group_keys(g2)[p] == k);
        }
    }
}

/// The group's key is `k` or comes after it.
pub open spec fn at_or_after(k: Seq<char>) -> spec_fn((Seq<char>, Seq<NuspecView>)) -> bool {
    |e: (Seq<char>, Seq<NuspecView>)| chars_order(e.0, k) >= 0
}

/// Where the key `k` belongs among the groups `g`: before the first group whose key is
/// not smaller.
pub open spec fn slot(g: Seq<(Seq<char>, Seq<NuspecView>)>, k: Seq<char>) -> int {
    match first_where(g, at_or_after(k)) {
        Some(q) => q,
        None => g.len() as int,
    }
}

/// The groups built by taking the packages one by one: a package joins the group of
/// its key, or opens one where its key belongs.
pub open spec fn grouping_built(s: Seq<NuspecView>) -> Seq<(Seq<char>, Seq<NuspecView>)>
    decreases s.len(),
{
    if s.len() == 0 {
        Seq::<(Seq<char>, Seq<NuspecView>)>::empty()
    } else {
        let g = grouping_built(s.drop_last());
        let x = s.last();
        let k = key_of(x);
        let q = slot(g, k);
        if q < g.len() && g[q].0 == k {
            g.update(q, (k, g[q].1.push(x)))
        } else {
            g.insert(q, (k, seq![x]))
        }
    }
}

proof fn lemma_grouping_built(s: Seq<NuspecView>)
    ensures
        is_grouping(s, grouping_built(s)),
    decreases s.len(),
{
    if s.len() == 0 {
        assert(group_keys(grouping_built(s)) =~= Seq::<Seq<char>>::empty());
    } else {
        let prev = s.drop_last();
        lemma_grouping_built(prev);
        let g = grouping_built(prev);
        let x = s.last();
        let k = key_of(x);
        let q = slot(g, k);
        assert(prev.push(x) =~= s);
        lemma_first_where(g, at_or_after(k));
        if q < g.len() {
            lemma_chars_order_facts(g[q].0, k);
        }
        if q < g.len() && g[q].0 == k {
            lemma_grouping_extend(prev, g, x, q);
        } else {
            lemma_grouping_insert(prev, g, x, q);
        }
    }
}

/// Every list of packages has its grouping.
pub proof fn law_grouping_exists(s: Seq<NuspecView>)
    ensures
        is_grouping(s, grouping(s)),
{
    lemma_grouping_built(s);
    lemma_grouping(s, grouping_built(s));
}

/// Where the key `k` goes among the groups: the first `p` keys are smaller, and the key
/// at `p`, if there is one, is `k` itself (`true`) or greater (`false`).
fn find_slot(groups: &Vec<(String, Vec<Nuspec>)>, k: &Vec<char>) -> (r: (usize, bool))
    ensures
        r.0 <= groups@.len(),
        forall|q: int| 0 <= q < r.0 ==> chars_order(#[trigger] groups@[q].0@, k@) < 0,
        r.1 ==> r.0 < groups@.len() && groups@[r.0 as int].0@ == k@,
        !r.1 ==> r.0 < groups@.len() ==> chars_order(groups@[r.0 as int].0@, k@) > 0,
{
    let mut p: usize = 0;
    while p < groups.len()
        invariant
            p <= groups@.len(),
            forall|q: int| 0 <= q < p ==> chars_order(#[trigger] groups@[q].0@, k@) < 0,
        decreases groups@.len() - p,
    {
        let c = compare_chars(&chars_of(groups[p].0.as_str()), k);
        if c == 0 {
            proof {
                lemma_chars_order_facts(groups@[p as int].0@, k@);
            }
            return (p, true);
        }
        if c > 0 {
            return (p, false);
        }
        p = p + 1;
    }
    (p, false)
}

/// The packages grouped by lower-cased id, in increasing order of that id; each group
/// keeps the packages' order (a `BTreeMap` from lower-cased id to packages).
pub fn group_by_id(packages: &[Nuspec]) -> (r: Vec<(String, Vec<Nuspec>)>)
    ensures
        groups_of_view(r@) == grouping(packages_view(packages@)),
        is_grouping(packages_view(packages@), groups_of_view(r@)),
{
    let ghost s = packages_view(packages@);
    let mut groups: Vec<(String, Vec<Nuspec>)> = Vec::new();
    let n = packages.len();
    assert(s.take(0) =~= Seq::<NuspecView>::empty());
    assert(groups_of_view(groups@) =~= Seq::<(Seq<char>, Seq<NuspecView>)>::empty());
    for i in 0..n
        invariant
            n == packages@.len(),
            s == packages_view(packages@),
            is_grouping(s.take(i as int), groups_of_view(groups@)),
    {
        let ghost prev = s.take(i as int);
        let ghost g = groups_of_view(groups@);
        let ghost x = packages@[i as int]@;
        assert(s.take(i + 1) =~= prev.push(x));
        let key = to_lowercase(packages[i].id.as_str());
        let kc = chars_of(key.as_str());
        let (p, found) = find_slot(&groups, &kc);
        if found {
            proof {
                lemma_grouping_extend(prev, g, x, p as int);
            }
            let ghost before = groups@;
            let mut entry = groups.remove(p);
            let ghost old_entry = entry;
            entry.1.push(packages[i].clone());
            assert(packages_view(entry.1@) =~= packages_view(old_entry.1@).push(x));
            let ghost removed = groups@;
            let ghost ev = entry;
            groups.insert(p, entry);
            proof {
                before.remove_ensures(p as int);
                removed.insert_ensures(p as int, ev);
            }
            assert(groups@ =~= before.update(p as int, ev));
            assert(groups_of_view(groups@) =~= g.update(p as int, (g[p as int].0, g[p as int].1.push(x))));
        } else {
            proof {
                lemma_grouping_insert(prev, g, x, p as int);
            }
            let mut members_vec: Vec<Nuspec> = Vec::new();
            members_vec.push(packages[i].clone());
            assert(packages_view(members_vec@) =~= seq![x]);
            let ghost before = groups@;
            let ghost entry = (key, members_vec);
            groups.insert(p, (key, members_vec));
            proof {
                before.insert_ensures(p as int, entry);
                g.insert_ensures(p as int, (key_of(x), seq![x]));
            }
            assert(groups_of_view(groups@) =~= g.insert(p as int, (key_of(x), seq![x])));
        }
    }
    assert(s.take(n as int) =~= s);
    proof {
        lemma_grouping(s, groups_of_view(groups@));
    }
    groups
}

} // verus!
