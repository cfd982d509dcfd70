//! The service index: where a client finds each of the feed's services.
use vstd::prelude::*;
use crate::registration_index::{package_url, registration_index_url, registration_url};
use crate::text::push_str;

verus! {

/// The service index document.
pub struct Index {
    pub version: String,
    pub resources: Vec<IndexResource>,
}

/// One service: its URL and its type.
pub struct IndexResource {
    pub id: String,
    pub resource_type: String,
}

/// The mathematical value of an [`IndexResource`].
pub struct IndexResourceView {
    pub id: Seq<char>,
    pub resource_type: Seq<char>,
}

impl View for IndexResource {
    type V = IndexResourceView;

    open spec fn view(&self) -> IndexResourceView {
        IndexResourceView { id: self.id@, resource_type: self.resource_type@ }
    }
}

/// The service of type `t` at `base/route`.
pub open spec fn resource_of(base: Seq<char>, route: Seq<char>, t: Seq<char>) -> IndexResourceView {
    IndexResourceView { id: base + "/"@ + route, resource_type: t }
}

/// The services that the feed offers, relative to its base URL.
pub open spec fn index_resources(base: Seq<char>) -> Seq<IndexResourceView> {
    seq![
        resource_of(base, "v3/package/"@, "PackageBaseAddress/3.0.0"@),
        resource_of(base, "v3/registration/"@, "RegistrationsBaseUrl"@),
        resource_of(base, "v3/registration/"@, "RegistrationsBaseUrl/3.6.0"@),
        resource_of(base, "v3/search"@, "SearchQueryService"@),
        resource_of(base, "v3/search"@, "SearchQueryService/3.5.0"@),
        resource_of(base, "v3/search"@, "SearchQueryService/3.4.0"@),
        resource_of(base, "v3/search"@, "SearchQueryService/3.0.0-beta"@),
    ]
}

impl Index {
    /// The service index of a feed served at `base_url`.
    pub fn new(base_url: &str) -> (r: Index)
        ensures
            r.version@ == "3.0.0"@,
            r.resources@.map_values(|x: IndexResource| x@) == index_resources(base_url@),
    {
        let mut resources: Vec<IndexResource> = Vec::new();
        resources.push(Self::create_resource(base_url, "v3/package/", "PackageBaseAddress/3.0.0"));
        resources.push(Self::create_resource(base_url, "v3/registration/", "RegistrationsBaseUrl"));
        resources.push(
            Self::create_resource(base_url, "v3/registration/", "RegistrationsBaseUrl/3.6.0"),
        );
        resources.push(Self::create_resource(base_url, "v3/search", "SearchQueryService"));
        resources.push(Self::create_resource(base_url, "v3/search", "SearchQueryService/3.5.0"));
        resources.push(Self::create_resource(base_url, "v3/search", "SearchQueryService/3.4.0"));
        resources.push(
            Self::create_resource(base_url, "v3/search", "SearchQueryService/3.0.0-beta"),
        );
        assert(resources@.map_values(|x: IndexResource| x@) =~= index_resources(base_url@));
        Index { version: "3.0.0".to_owned(), resources }
    }

    /// The service of type `t` at `base_url/route`.
    fn create_resource(base_url: &str, route: &str, t: &str) -> (r: IndexResource)
        ensures
            r@ == resource_of(base_url@, route@, t@),
    {
        let mut id = String::new();
        push_str(&mut id, base_url);
        push_str(&mut id, "/");
        push_str(&mut id, route);
        IndexResource { id, resource_type: t.to_owned() }
    }
}

/// Every service the index advertises points at a route the feed answers: both
/// registration services lead, with a package id appended, to that package's
/// registration index and version entries; the package base address leads to the
/// package download; the search services are the search route.
pub proof fn law_index_points_at_served_routes(base: Seq<char>, id: Seq<char>, version: Seq<char>)
    ensures
        index_resources(base).len() == 7,
        index_resources(base)[0].resource_type == "PackageBaseAddress/3.0.0"@,
        index_resources(base)[0].id + id + "/"@ + version + "/"@ + id + "."@ + version + ".nupkg"@
            == package_url(base, id, version),
        index_resources(base)[1].resource_type == "RegistrationsBaseUrl"@,
        index_resources(base)[2].resource_type == "RegistrationsBaseUrl/3.6.0"@,
        forall|i: int|
            1 <= i <= 2 ==> (#[trigger] index_resources(base)[i]).id + id + "/index.json"@
                == registration_index_url(base, id) && index_resources(base)[i].id + id + "/"@
                + version + ".json"@ == registration_url(base, id, version),
        index_resources(base)[3].resource_type == "SearchQueryService"@,
        index_resources(base)[4].resource_type == "SearchQueryService/3.5.0"@,
        index_resources(base)[5].resource_type == "SearchQueryService/3.4.0"@,
        index_resources(base)[6].resource_type == "SearchQueryService/3.0.0-beta"@,
        forall|i: int| 3 <= i <= 6 ==> (#[trigger] index_resources(base)[i]).id == base + "/v3/search"@,
{
    reveal_strlit("/");
    reveal_strlit("v3/package/");
    reveal_strlit("v3/registration/");
    reveal_strlit("v3/search");
    reveal_strlit("/v3/package/");
    reveal_strlit("/v3/registration/");
    reveal_strlit("/v3/search");
    let rs = index_resources(base);
    assert(rs[0].id + id + "/"@ + version + "/"@ + id + "."@ + version + ".nupkg"@ =~= package_url(
        base,
        id,
        version,
    ));
    assert forall|i: int| 1 <= i <= 2 implies (#[trigger] rs[i]).id + id + "/index.json"@
        == registration_index_url(base, id) && rs[i].id + id + "/"@ + version + ".json"@
        == registration_url(base, id, version) by {
        assert(rs[i].id == base + "/"@ + "v3/registration/"@);
        assert(rs[i].id + id + "/index.json"@ =~= registration_index_url(base, id));
        assert(rs[i].id + id + "/"@ + version + ".json"@ =~= registration_url(base, id, version));
    }
    assert forall|i: int| 3 <= i <= 6 implies (#[trigger] rs[i]).id == base + "/v3/search"@ by {
        assert(rs[i].id == base + "/"@ + "v3/search"@);
        assert(rs[i].id =~= base + "/v3/search"@);
    }
}

} // verus!
