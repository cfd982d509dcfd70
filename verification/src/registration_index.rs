//! The registration index of a package: one page listing every version with its metadata.
use vstd::prelude::*;
use crate::app_state::packages_view;
use crate::dependency_group::{DependencyGroup, DependencyGroupView, groups_view};
use crate::nuget_version::{NugetVersionView, display, law_order_reflexive, version_order};
use crate::nuspec::{Nuspec, NuspecView};
use crate::package_index::{versions_in, versions_of};
use crate::sort::{
    is_stable_sort, law_stable_sort_exists, precedes, stable_order, stable_sort_by_version, versions_view,
};
use crate::text::{push_str, signed_decimal, signed_decimal_string};

verus! {

/// A package's registration index.
pub struct RegistrationIndex {
    pub at_id: String,
    pub count: u16,
    pub items: Vec<RegistrationPage>,
}

/// A page of versions, with the lowest and highest of them.
pub struct RegistrationPage {
    pub at_id: String,
    pub count: u16,
    pub lower: String,
    pub upper: String,
    pub items: Vec<RegistrationVersion>,
}

/// One version: where its registration and its package file are.
pub struct RegistrationVersion {
    pub at_id: String,
    pub package_content: String,
    pub catalog_entry: RegistrationCatalogEntry,
}

/// The metadata of one version.
pub struct RegistrationCatalogEntry {
    pub at_id: String,
    pub id: String,
    pub version: String,
    pub description: String,
    pub authors: String,
    pub listed: bool,
    pub published: String,
    pub package_content: String,
    pub project_url: String,
    pub license_url: String,
    pub tags: Vec<String>,
    pub require_license_acceptance: bool,
    pub dependency_groups: Vec<DependencyGroup>,
}

/// The mathematical value of a [`RegistrationCatalogEntry`].
pub struct CatalogEntryView {
    pub at_id: Seq<char>,
    pub id: Seq<char>,
    pub version: Seq<char>,
    pub description: Seq<char>,
    pub authors: Seq<char>,
    pub listed: bool,
    pub published: Seq<char>,
    pub package_content: Seq<char>,
    pub project_url: Seq<char>,
    pub license_url: Seq<char>,
    pub tags: Seq<Seq<char>>,
    pub require_license_acceptance: bool,
    pub dependency_groups: Seq<DependencyGroupView>,
}

/// The mathematical value of a [`RegistrationVersion`].
pub struct RegistrationVersionView {
    pub at_id: Seq<char>,
    pub package_content: Seq<char>,
    pub catalog_entry: CatalogEntryView,
}

/// The mathematical value of a [`RegistrationPage`].
pub struct RegistrationPageView {
    pub at_id: Seq<char>,
    pub count: u16,
    pub lower: Seq<char>,
    pub upper: Seq<char>,
    pub items: Seq<RegistrationVersionView>,
}

/// The mathematical value of a [`RegistrationIndex`].
pub struct RegistrationIndexView {
    pub at_id: Seq<char>,
    pub count: u16,
    pub items: Seq<RegistrationPageView>,
}

impl View for RegistrationCatalogEntry {
    type V = CatalogEntryView;

    open spec fn view(&self) -> CatalogEntryView {
        CatalogEntryView {
            at_id: self.at_id@,
            id: self.id@,
            version: self.version@,
            description: self.description@,
            authors: self.authors@,
            listed: self.listed,
            published: self.published@,
            package_content: self.package_content@,
            project_url: self.project_url@,
            license_url: self.license_url@,
            tags: self.tags.deep_view(),
            require_license_acceptance: self.require_license_acceptance,
            dependency_groups: groups_view(self.dependency_groups@),
        }
    }
}

impl View for RegistrationVersion {
    type V = RegistrationVersionView;

    open spec fn view(&self) -> RegistrationVersionView {
        RegistrationVersionView {
            at_id: self.at_id@,
            package_content: self.package_content@,
            catalog_entry: self.catalog_entry@,
        }
    }
}

impl View for RegistrationPage {
    type V = RegistrationPageView;

    open spec fn view(&self) -> RegistrationPageView {
        RegistrationPageView {
            at_id: self.at_id@,
            count: self.count,
            lower: self.lower@,
            upper: self.upper@,
            items: self.items@.map_values(|v: RegistrationVersion| v@),
        }
    }
}

impl View for RegistrationIndex {
    type V = RegistrationIndexView;

    open spec fn view(&self) -> RegistrationIndexView {
        RegistrationIndexView {
            at_id: self.at_id@,
            count: self.count,
            items: self.items@.map_values(|p: RegistrationPage| p@),
        }
    }
}

/// `base/v3/registration/id/version.json`.
pub open spec fn registration_url(base: Seq<char>, id: Seq<char>, version: Seq<char>) -> Seq<char> {
    base + "/v3/registration/"@ + id + "/"@ + version + ".json"@
}

/// `base/v3/package/id/version/id.version.nupkg`.
pub open spec fn package_url(base: Seq<char>, id: Seq<char>, version: Seq<char>) -> Seq<char> {
    base + "/v3/package/"@ + id + "/"@ + version + "/"@ + id + "."@ + version + ".nupkg"@
}

/// `base/v3/registration/id/index.json`.
pub open spec fn registration_index_url(base: Seq<char>, id: Seq<char>) -> Seq<char> {
    base + "/v3/registration/"@ + id + "/index.json"@
}

/// The text, or the empty text.
pub open spec fn or_empty(t: Option<Seq<char>>) -> Seq<char> {
    match t {
        Some(x) => x,
        None => Seq::<char>::empty(),
    }
}

/// The registration entry of one package version; links use the requested id
/// `package_id`, the entry keeps the package's own id.
pub open spec fn registration_version_of(
    base: Seq<char>,
    package_id: Seq<char>,
    p: NuspecView,
) -> RegistrationVersionView {
    let v = display(p.version);
    RegistrationVersionView {
        at_id: registration_url(base, package_id, v),
        package_content: package_url(base, package_id, v),
        catalog_entry: CatalogEntryView {
            at_id: registration_url(base, package_id, v),
            id: p.id,
            version: v,
            description: p.description,
            authors: p.authors,
            listed: true,
            published: signed_decimal(p.published as int),
            package_content: package_url(base, package_id, v),
            project_url: or_empty(p.project_url),
            license_url: or_empty(p.license_url),
            tags: p.tags,
            require_license_acceptance: p.require_license_acceptance,
            dependency_groups: p.dependency_groups,
        },
    }
}

/// The first version of a stable ascending sort by precedence.
pub open spec fn lowest_version(pkgs: Seq<NuspecView>) -> NugetVersionView {
    let vs = versions_of(pkgs);
    vs[stable_order(vs, false)[0] as int]
}

/// The last version of a stable ascending sort by precedence.
pub open spec fn highest_version(pkgs: Seq<NuspecView>) -> NugetVersionView {
    let vs = versions_of(pkgs);
    vs[stable_order(vs, false)[vs.len() - 1] as int]
}

/// The page's bounds are the lowest and the highest version: every version of the
/// package lies between them.
pub proof fn law_page_bounds_enclose_versions(pkgs: Seq<NuspecView>)
    requires
        0 < pkgs.len() <= usize::MAX,
    ensures
        forall|k: int|
            0 <= k < pkgs.len() ==> version_order(lowest_version(pkgs), (#[trigger] pkgs[k]).version) <= 0
                && version_order(pkgs[k].version, highest_version(pkgs)) <= 0,
{
    let vs = versions_of(pkgs);
    let n = vs.len();
    law_stable_sort_exists(vs, false);
    let idx = stable_order(vs, false);
    assert forall|k: int| 0 <= k < pkgs.len() implies version_order(
        lowest_version(pkgs),
        (#[trigger] pkgs[k]).version,
    ) <= 0 && version_order(pkgs[k].version, highest_version(pkgs)) <= 0 by {
        assert(idx.contains(k as usize));
        let m = choose|m: int| 0 <= m < idx.len() && idx[m] == k as usize;
        assert(vs[k] == pkgs[k].version);
        law_order_reflexive(vs[k]);
        if m > 0 {
            assert(precedes(vs, idx[0], idx[m], false));
        }
        if m < n - 1 {
            assert(precedes(vs, idx[m], idx[n - 1], false));
        }
    }
}

/// The single page: every version in the given order, bounded by the lowest and
/// highest version of a stable ascending sort.
pub open spec fn registration_page_of(
    base: Seq<char>,
    package_id: Seq<char>,
    pkgs: Seq<NuspecView>,
) -> RegistrationPageView {
    let lower = display(lowest_version(pkgs));
    let upper = display(highest_version(pkgs));
    RegistrationPageView {
        at_id: base + "/v3/registration/"@ + package_id + "/index.json#page/"@ + lower + "/"@ + upper,
        count: pkgs.len() as u16,
        lower,
        upper,
        items: pkgs.map_values(|p: NuspecView| registration_version_of(base, package_id, p)),
    }
}

impl RegistrationIndex {
    /// The registration index of `package`, the versions of the package requested as
    /// `package_id`; `None` when there are none.
    pub fn new(base_url: &str, package_id: &str, package: &[Nuspec]) -> (r: Option<RegistrationIndex>)
        ensures
            r is Some == (package@.len() > 0),
            r matches Some(x) ==> x@ == (RegistrationIndexView {
                at_id: registration_index_url(base_url@, package_id@),
                count: 1,
                items: seq![registration_page_of(base_url@, package_id@, packages_view(package@))],
            }),
    {
        if package.len() == 0 {
            return None;
        }
        let at_id = Self::registration_index_url(base_url, package_id);
        let page = Self::create_page(base_url, package_id, package);
        let mut items: Vec<RegistrationPage> = Vec::new();
        items.push(page);
        let r = RegistrationIndex { at_id, count: 1, items };
        assert(r@.items =~= seq![registration_page_of(base_url@, package_id@, packages_view(package@))]);
        Some(r)
    }

    fn create_page(base_url: &str, package_id: &str, package: &[Nuspec]) -> (r: RegistrationPage)
        requires
            package@.len() > 0,
        ensures
            r@ == registration_page_of(base_url@, package_id@, packages_view(package@)),
    {
        let versions = versions_in(package);
        let idx = stable_sort_by_version(&versions, false);
        let n = versions.len();
        let lower = versions[idx[0]].to_string();
        let upper = versions[idx[n - 1]].to_string();
        let mut items: Vec<RegistrationVersion> = Vec::new();
        for i in 0..n
            invariant
                n == package@.len(),
                items@.len() == i,
                forall|k: int| 0 <= k < i ==> #[trigger] items@[k]@ == registration_version_of(
                    base_url@,
                    package_id@,
                    package@[k]@,
                ),
        {
            items.push(Self::create_version(base_url, package_id, &package[i]));
        }
        let mut at_id = String::new();
        push_str(&mut at_id, base_url);
        push_str(&mut at_id, "/v3/registration/");
        push_str(&mut at_id, package_id);
        push_str(&mut at_id, "/index.json#page/");
        push_str(&mut at_id, lower.as_str());
        push_str(&mut at_id, "/");
        push_str(&mut at_id, upper.as_str());
        let count = #[verifier::truncate] (items.len() as u16);
        let r = RegistrationPage { at_id, count, lower, upper, items };

        assert(r@.items =~= packages_view(package@).map_values(
            |p: NuspecView| registration_version_of(base_url@, package_id@, p),
        ));
        r
    }

    fn create_version(base_url: &str, package_id: &str, package: &Nuspec) -> (r: RegistrationVersion)
        ensures
            r@ == registration_version_of(base_url@, package_id@, package@),
    {
        let version = package.version.to_string();
        let at_id = Self::registration_url(base_url, package_id, version.as_str());
        let package_content = Self::package_url(base_url, package_id, version.as_str());
        let catalog_entry = Self::create_catalog(base_url, package_id, package);
        RegistrationVersion { at_id, package_content, catalog_entry }
    }

    fn create_catalog(base_url: &str, package_id: &str, package: &Nuspec) -> (r: RegistrationCatalogEntry)
        ensures
            r@ == registration_version_of(base_url@, package_id@, package@).catalog_entry,
    {
        let package = package.clone();
        let version = package.version.to_string();
        let at_id = Self::registration_url(base_url, package_id, version.as_str());
        let package_content = Self::package_url(base_url, package_id, version.as_str());
        let project_url = match package.project_url {
            Some(u) => u,
            None => String::new(),
        };
        let license_url = match package.license_url {
            Some(u) => u,
            None => String::new(),
        };
        RegistrationCatalogEntry {
            at_id,
            id: package.id,
            version,
            description: package.description,
            authors: package.authors,
            listed: true,
            published: signed_decimal_string(package.published),
            package_content,
            project_url,
            license_url,
            tags: package.tags,
            require_license_acceptance: package.require_license_acceptance,
            dependency_groups: package.dependency_groups,
        }
    }

    /// `base/v3/registration/id/index.json`.
    pub(crate) fn registration_index_url(base_url: &str, package_id: &str) -> (r: String)
        ensures
            r@ == registration_index_url(base_url@, package_id@),
    {
        let mut r = String::new();
        push_str(&mut r, base_url);
        push_str(&mut r, "/v3/registration/");
        push_str(&mut r, package_id);
        push_str(&mut r, "/index.json");
        r
    }

    /// `base/v3/registration/id/version.json`.
    pub(crate) fn registration_url(base_url: &str, package_id: &str, version: &str) -> (r: String)
        ensures
            r@ == registration_url(base_url@, package_id@, version@),
    {
        let mut r = String::new();
        push_str(&mut r, base_url);
        push_str(&mut r, "/v3/registration/");
        push_str(&mut r, package_id);
        push_str(&mut r, "/");
        push_str(&mut r, version);
        push_str(&mut r, ".json");
        r
    }

    /// `base/v3/package/id/version/id.version.nupkg`.
    pub(crate) fn package_url(base_url: &str, package_id: &str, version: &str) -> (r: String)
        ensures
            r@ == package_url(base_url@, package_id@, version@),
    {
        let mut r = String::new();
        push_str(&mut r, base_url);
        push_str(&mut r, "/v3/package/");
        push_str(&mut r, package_id);
        push_str(&mut r, "/");
        push_str(&mut r, version);
        push_str(&mut r, "/");
        push_str(&mut r, package_id);
        push_str(&mut r, ".");
        push_str(&mut r, version);
        push_str(&mut r, ".nupkg");
        r
    }
}

} // verus!
