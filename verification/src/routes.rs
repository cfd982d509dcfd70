//! What the package and registration requests answer, decided from the packages found.
use vstd::prelude::*;
use crate::app_state::packages_view;
use crate::nuget_version::{NugetVersion, NugetVersionView, VersionError, display, parse_version};
use crate::nuspec::{Nuspec, NuspecView};
use crate::registration_index::{
    RegistrationIndex, RegistrationVersion, RegistrationVersionView, registration_page_of,
    registration_version_of,
};
use crate::seqs::{first_where, lemma_first_where, lemma_first_where_at, lemma_first_where_none};
use crate::text::{chars_of, ends_with, ends_with_chars, push_str, str_equal, trim_end_matches, trim_end_matches_exec};

verus! {

/// The answer to a request for a package's file.
pub enum PackageResponse {
    /// No such package version.
    NotFound,
    /// The `.nuspec` document, as XML.
    Nuspec(String),
    /// The package file at `path`, to be sent as an attachment named `file_name`.
    Nupkg { path: String, file_name: String },
    /// Neither a `.nuspec` nor a `.nupkg` was asked for.
    BadRequest,
}

/// The answer to a request for the file `file` of the version `version` of the package
/// `id`, where `found` is that package version, if there is one.
pub fn get_package(found: Option<Nuspec>, id: &str, version: &str, file: &str) -> (r: PackageResponse)
    ensures
        match found {
            None => r is NotFound,
            Some(p) => if ends_with(file@, ".nuspec"@) {
                r matches PackageResponse::Nuspec(x) && x@ == p.xml@
            } else if ends_with(file@, ".nupkg"@) {
                r matches PackageResponse::Nupkg { path, file_name } && path@ == p.file@
                    && file_name@ == id@ + "."@ + version@ + ".nupkg"@
            } else {
                r is BadRequest
            },
        },
{
    let package = match found {
        Some(p) => p,
        None => {
            return PackageResponse::NotFound;
        },
    };
    let name = chars_of(file);
    if ends_with_chars(&name, &chars_of(".nuspec")) {
        PackageResponse::Nuspec(package.xml)
    } else if ends_with_chars(&name, &chars_of(".nupkg")) {
        let mut file_name = id.to_owned();
        push_str(&mut file_name, ".");
        push_str(&mut file_name, version);
        push_str(&mut file_name, ".nupkg");
        PackageResponse::Nupkg { path: package.file, file_name }
    } else {
        PackageResponse::BadRequest
    }
}

/// The package version displays as `d`.
pub open spec fn displays_as(d: Seq<char>) -> spec_fn(NuspecView) -> bool {
    |p: NuspecView| display(p.version) == d
}

/// The registration entry that a request for `version` of the package `id` gets, among
/// the versions `pkgs` of that package: none when there are no versions, when `version`
/// without its trailing `.json`s is not a version, or when no version displays as it
/// does; else the entry of the first version that does.
pub open spec fn registration_version_for(
    base: Seq<char>,
    id: Seq<char>,
    pkgs: Seq<NuspecView>,
    version: Seq<char>,
) -> Option<RegistrationVersionView> {
    if pkgs.len() == 0 {
        None
    } else {
        match parse_version(trim_end_matches(version, ".json"@)) {
            Err(_) => None,
            Ok(v) => match first_where(pkgs, displays_as(display(v))) {
                Some(k) => Some(registration_version_of(base, id, pkgs[k])),
                None => None,
            },
        }
    }
}

/// The entry a registration request gets is for the version asked for: its catalog
/// entry shows exactly that version (prerelease label included), and it is the entry of
/// one of the package's versions; when some version of the package shows as the
/// requested one, an entry is found.
pub proof fn law_registration_version_is_the_requested_one(
    base: Seq<char>,
    id: Seq<char>,
    pkgs: Seq<NuspecView>,
    version: Seq<char>,
)
    ensures
        registration_version_for(base, id, pkgs, version) matches Some(x) ==> {
            &&& parse_version(trim_end_matches(version, ".json"@)) is Ok
            &&& x.catalog_entry.version == display(parse_version(trim_end_matches(version, ".json"@))->Ok_0)
            &&& exists|k: int| 0 <= k < pkgs.len() && x == registration_version_of(base, id, #[trigger] pkgs[k])
        },
        parse_version(trim_end_matches(version, ".json"@)) matches Ok(v) && (exists|k: int|
            0 <= k < pkgs.len() && display((#[trigger] pkgs[k]).version) == display(v))
            ==> registration_version_for(base, id, pkgs, version) is Some,
{
    match parse_version(trim_end_matches(version, ".json"@)) {
        Ok(v) => {
            lemma_first_where(pkgs, displays_as(display(v)));
            if exists|k: int| 0 <= k < pkgs.len() && display((#[trigger] pkgs[k]).version) == display(v) {
                let k = choose|k: int| 0 <= k < pkgs.len() && display((#[trigger] pkgs[k]).version) == display(v);
                assert((displays_as(display(v)))(pkgs[k]));
            }
            if let Some(k) = first_where(pkgs, displays_as(display(v))) {
                assert((displays_as(display(v)))(pkgs[k]));
                assert(registration_version_of(base, id, pkgs[k]).catalog_entry.version == display(pkgs[k].version));
            }
        },
        Err(_) => {},
    }
}

/// The registration entry for `version` of the package `id`, whose versions are
/// `package` (see [`registration_version_for`]).
pub fn get_registration_version(base_url: &str, id: &str, package: &[Nuspec], version: &str) -> (r:
    Option<RegistrationVersion>)
    ensures
        r.is_some() == registration_version_for(base_url@, id@, packages_view(package@), version@).is_some(),
        r matches Some(x) ==> Some(x@) == registration_version_for(
            base_url@,
            id@,
            packages_view(package@),
            version@,
        ),
{
    let ghost pv = packages_view(package@);
    let index = match RegistrationIndex::new(base_url, id, package) {
        Some(i) => i,
        None => {
            return None;
        },
    };
    let trimmed = trim_end_matches_exec(version, ".json");
    let wanted = match NugetVersion::parse(trimmed.as_str()) {
        Ok(v) => v,
        Err(_) => {
            return None;
        },
    };
    let wanted_text = wanted.to_string();
    let ghost p = displays_as(wanted_text@);
    let ghost page_view = registration_page_of(base_url@, id@, pv);
    assert(index@.items == seq![page_view]);
    assert(index.items@.len() == 1);
    assert(index@.items[0] == index.items@[0]@);
    let mut pages = index.items;
    let mut page = pages.remove(0);
    assert(page@ == page_view);
    assert(page@.items.len() == page.items@.len());
    let n = page.items.len();
    assert(n == pv.len());
    assert forall|k: int| 0 <= k < n implies #[trigger] page.items@[k]@ == registration_version_of(
        base_url@,
        id@,
        pv[k],
    ) by {
        assert(page@.items[k] == page.items@[k]@);
    }
    assert(parse_version(trim_end_matches(version@, ".json"@)) == Ok::<NugetVersionView, VersionError>(wanted@));
    for i in 0..n
        invariant
            n == page.items@.len(),
            n == pv.len(),
            pv == packages_view(package@),
            p == displays_as(wanted_text@),
            wanted_text@ == display(wanted@),
            parse_version(trim_end_matches(version@, ".json"@)) == Ok::<NugetVersionView, VersionError>(
                wanted@,
            ),
            forall|k: int| 0 <= k < n ==> #[trigger] page.items@[k]@ == registration_version_of(
                base_url@,
                id@,
                pv[k],
            ),
            forall|j: int| 0 <= j < i ==> !p(#[trigger] pv[j]),
    {
        assert(page.items@[i as int]@ == registration_version_of(base_url@, id@, pv[i as int]));
        assert(page.items@[i as int].catalog_entry.version@ == display(pv[i as int].version));
        if str_equal(page.items[i].catalog_entry.version.as_str(), wanted_text.as_str()) {
            proof {
                lemma_first_where_at(pv, p, i as int);
            }
            let ghost before = page.items@;
            let item = page.items.remove(i);
            assert(item == before[i as int]);
            return Some(item);
        }
    }
    proof {
        lemma_first_where_none(pv, p);
    }
    None
}

} // verus!
