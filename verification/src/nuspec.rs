//! Package metadata read from the `.nuspec` document inside a `.nupkg` archive.
use vstd::prelude::*;
use vstd::utf8::{decode_utf8, valid_utf8};
use crate::dependency_group::{
    Dependency, DependencyGroup, DependencyGroupView, DependencyView, dependencies_view, groups_view,
};
use crate::nuget_version::{NugetVersion, NugetVersionView, VersionError, parse_version};
use crate::seqs::{first_where, lemma_first_where, lemma_first_where_at, lemma_first_where_none};
use crate::text::{
    ascii_lower, ascii_lower_chars, chars_of, compare_chars, ends_with, ends_with_chars,
    lemma_chars_deep_view, lemma_chars_order_facts, str_equal, string_of, strings_of, to_lowercase,
    trim, trim_chars, unicode_lowercase, words, words_of,
};
use crate::xml::{XmlAttribute, XmlNode, XmlNodeView, attributes_view, nodes_view, parse_xml, xml_document_nodes};

verus! {

/// The metadata of one package file.
#[derive(Debug)]
pub struct Nuspec {
    /// Where the package file is.
    pub file: String,
    /// The `.nuspec` document itself.
    pub xml: String,
    pub id: String,
    pub description: String,
    pub authors: String,
    pub tags: Vec<String>,
    pub version: NugetVersion,
    pub project_url: Option<String>,
    pub license_url: Option<String>,
    pub license: Option<String>,
    pub require_license_acceptance: bool,
    pub dependency_groups: Vec<DependencyGroup>,
    /// When the package was read, in seconds since the Unix epoch.
    pub published: i64,
}

/// The mathematical value of a [`Nuspec`].
pub struct NuspecView {
    pub file: Seq<char>,
    pub xml: Seq<char>,
    pub id: Seq<char>,
    pub description: Seq<char>,
    pub authors: Seq<char>,
    pub tags: Seq<Seq<char>>,
    pub version: NugetVersionView,
    pub project_url: Option<Seq<char>>,
    pub license_url: Option<Seq<char>>,
    pub license: Option<Seq<char>>,
    pub require_license_acceptance: bool,
    pub dependency_groups: Seq<DependencyGroupView>,
    pub published: i64,
}

impl View for Nuspec {
    type V = NuspecView;

    open spec fn view(&self) -> NuspecView {
        NuspecView {
            file: self.file@,
            xml: self.xml@,
            id: self.id@,
            description: self.description@,
            authors: self.authors@,
            tags: self.tags.deep_view(),
            version: self.version@,
            project_url: self.project_url.deep_view(),
            license_url: self.license_url.deep_view(),
            license: self.license.deep_view(),
            require_license_acceptance: self.require_license_acceptance,
            dependency_groups: groups_view(self.dependency_groups@),
            published: self.published,
        }
    }
}

/// Why a package could not be read.
#[derive(Debug, PartialEq, Eq, Structural, Clone, Copy)]
pub enum NuspecError {
    /// The package is not a readable zip archive, or its nuspec entry cannot be read.
    Archive,
    /// No entry of the archive has a name ending in `.nuspec`.
    NoNuspec,
    /// The nuspec entry is not UTF-8 text.
    NotUtf8,
    /// The nuspec is not well-formed XML.
    Xml,
    /// The nuspec's version is not a valid version.
    Version(VersionError),
}

/// The sentence that says what went wrong.
pub open spec fn error_message(e: NuspecError) -> Seq<char> {
    match e {
        NuspecError::Archive => "package is not a readable zip archive"@,
        NuspecError::NoNuspec => "no .nuspec found in package"@,
        NuspecError::NotUtf8 => "the .nuspec is not UTF-8 text"@,
        NuspecError::Xml => "the .nuspec is not well-formed XML"@,
        NuspecError::Version(_) => "the .nuspec holds an invalid version"@,
    }
}

impl NuspecError {
    /// A sentence that says what went wrong.
    pub fn to_string(&self) -> (r: String)
        ensures
            r@ == error_message(*self),
    {
        match self {
            NuspecError::Archive => "package is not a readable zip archive".to_owned(),
            NuspecError::NoNuspec => "no .nuspec found in package".to_owned(),
            NuspecError::NotUtf8 => "the .nuspec is not UTF-8 text".to_owned(),
            NuspecError::Xml => "the .nuspec is not well-formed XML".to_owned(),
            NuspecError::Version(_) => "the .nuspec holds an invalid version".to_owned(),
        }
    }
}

// ---------------------------------------------------------------------------
// Specification
// ---------------------------------------------------------------------------

/// The node is an element with this local tag name.
pub open spec fn tag_pred(tag: Seq<char>) -> spec_fn(XmlNodeView) -> bool {
    |n: XmlNodeView| n.element == Some(tag)
}

/// The attribute has this local name.
pub open spec fn name_pred(name: Seq<char>) -> spec_fn((Seq<char>, Seq<char>)) -> bool {
    |a: (Seq<char>, Seq<char>)| a.0 == name
}

/// The value of the first attribute with this name.
pub open spec fn attribute_value(attrs: Seq<(Seq<char>, Seq<char>)>, name: Seq<char>) -> Option<
    Seq<char>,
> {
    match first_where(attrs, name_pred(name)) {
        Some(k) => Some(attrs[k].1),
        None => None,
    }
}

/// The text, or the empty text.
pub open spec fn text_or_empty(t: Option<Seq<char>>) -> Seq<char> {
    match t {
        Some(x) => x,
        None => Seq::<char>::empty(),
    }
}

/// The trimmed text of the first element named `tag`, in document order; the empty
/// text when that element has no text of its own.
pub open spec fn tag_text(nodes: Seq<XmlNodeView>, tag: Seq<char>) -> Option<Seq<char>> {
    match first_where(nodes, tag_pred(tag)) {
        Some(k) => Some(trim(text_or_empty(nodes[k].text))),
        None => None,
    }
}

/// The node is an element named `tag` whose parent is the node `parent`.
pub open spec fn is_child_tagged(n: XmlNodeView, parent: usize, tag: Seq<char>) -> bool {
    n.parent == Some(parent) && n.element == Some(tag)
}

/// The dependency a `dependency` element stands for: it needs an `id`; a missing
/// `version` means any version.
pub open spec fn dependency_of(n: XmlNodeView) -> Option<DependencyView> {
    match attribute_value(n.attributes, "id"@) {
        Some(id) => Some(DependencyView { id, range: text_or_empty(attribute_value(n.attributes, "version"@)) }),
        None => None,
    }
}

/// The dependencies listed by the `dependency` children (with an `id`) of the node
/// `parent`, in document order.
pub open spec fn dependencies_under(nodes: Seq<XmlNodeView>, parent: usize) -> Seq<DependencyView>
    decreases nodes.len(),
{
    if nodes.len() == 0 {
        Seq::<DependencyView>::empty()
    } else {
        let pre = dependencies_under(nodes.drop_last(), parent);
        let n = nodes.last();
        if is_child_tagged(n, parent, "dependency"@) && dependency_of(n) is Some {
            pre.push(dependency_of(n)->0)
        } else {
            pre
        }
    }
}

/// The group a `group` element stands for: its non-empty `targetFramework` and the
/// dependencies under it.
pub open spec fn group_of(all: Seq<XmlNodeView>, n: XmlNodeView) -> DependencyGroupView {
    DependencyGroupView {
        target_framework: match attribute_value(n.attributes, "targetFramework"@) {
            Some(t) => if t.len() > 0 {
                Some(t)
            } else {
                None
            },
            None => None,
        },
        dependencies: dependencies_under(all, n.id),
    }
}

/// The groups of the `group` children of the node `parent` among `nodes`, in order.
pub open spec fn groups_under(all: Seq<XmlNodeView>, nodes: Seq<XmlNodeView>, parent: usize) -> Seq<
    DependencyGroupView,
>
    decreases nodes.len(),
{
    if nodes.len() == 0 {
        Seq::<DependencyGroupView>::empty()
    } else {
        let pre = groups_under(all, nodes.drop_last(), parent);
        let n = nodes.last();
        if is_child_tagged(n, parent, "group"@) {
            pre.push(group_of(all, n))
        } else {
            pre
        }
    }
}

/// The dependency groups of the first `dependencies` element: its `group` children,
/// then, when it also lists dependencies directly (the older flat form), one group
/// without a target framework that holds those.
pub open spec fn dependency_groups(nodes: Seq<XmlNodeView>) -> Seq<DependencyGroupView> {
    match first_where(nodes, tag_pred("dependencies"@)) {
        None => Seq::<DependencyGroupView>::empty(),
        Some(k) => {
            let d = nodes[k].id;
            let groups = groups_under(nodes, nodes, d);
            let flat = dependencies_under(nodes, d);
            if flat.len() > 0 {
                groups.push(DependencyGroupView { target_framework: None, dependencies: flat })
            } else {
                groups
            }
        },
    }
}

/// The metadata that the nuspec document `xml`, read as `nodes`, gives for the package
/// file `file` read at time `published`. Missing text fields are empty, a missing
/// version is `1.0.0`, and the version must be valid.
pub open spec fn nuspec_of(
    xml: Seq<char>,
    file: Seq<char>,
    nodes: Seq<XmlNodeView>,
    published: i64,
) -> Result<NuspecView, NuspecError> {
    let version_text = match tag_text(nodes, "version"@) {
        Some(t) => t,
        None => "1.0.0"@,
    };
    match parse_version(version_text) {
        Err(e) => Err(NuspecError::Version(e)),
        Ok(version) => Ok(
            NuspecView {
                file,
                xml,
                id: text_or_empty(tag_text(nodes, "id"@)),
                description: text_or_empty(tag_text(nodes, "description"@)),
                authors: text_or_empty(tag_text(nodes, "authors"@)),
                tags: words(text_or_empty(tag_text(nodes, "tags"@))),
                version,
                project_url: tag_text(nodes, "projectUrl"@),
                license_url: tag_text(nodes, "licenseUrl"@),
                license: tag_text(nodes, "license"@),
                require_license_acceptance: match tag_text(nodes, "requireLicenseAcceptance"@) {
                    Some(t) => ascii_lower(trim(t)) == ascii_lower("true"@),
                    None => false,
                },
                dependency_groups: dependency_groups(nodes),
                published,
            },
        ),
    }
}

/// What reading the nuspec document `s` of the package file `path` at time `published` gives.
pub open spec fn read_nuspec(s: Seq<char>, path: Seq<char>, published: i64) -> Result<
    NuspecView,
    NuspecError,
> {
    match xml_document_nodes(s) {
        None => Err(NuspecError::Xml),
        Some(nodes) => nuspec_of(s, path, nodes, published),
    }
}

/// The archive entry name ends in `.nuspec`.
pub open spec fn nuspec_entry_pred() -> spec_fn(Option<Seq<char>>) -> bool {
    |n: Option<Seq<char>>| n matches Some(x) && ends_with(x, ".nuspec"@)
}

/// What unpacking the package file `path`, whose bytes are `archive`, at time
/// `published` gives: the archive's first `.nuspec` entry, read as UTF-8 text,
/// read as a nuspec document.
pub open spec fn unpack_package(archive: Seq<u8>, path: Seq<char>, published: i64) -> Result<
    NuspecView,
    NuspecError,
> {
    match zip_entry_names(archive) {
        None => Err(NuspecError::Archive),
        Some(names) => match first_where(names, nuspec_entry_pred()) {
            None => Err(NuspecError::NoNuspec),
            Some(k) => match zip_entry_data(archive, names[k]->0) {
                None => Err(NuspecError::Archive),
                Some(data) => if valid_utf8(data) {
                    read_nuspec(decode_utf8(data), path, published)
                } else {
                    Err(NuspecError::NotUtf8)
                },
            },
        },
    }
}

// ---------------------------------------------------------------------------
// Reading the document
// ---------------------------------------------------------------------------

/// The index of the first element node named `tag`.
fn find_element(nodes: &Vec<XmlNode>, tag: &str) -> (r: Option<usize>)
    ensures
        r matches Some(i) ==> i < nodes@.len() && first_where(nodes_view(nodes@), tag_pred(tag@))
            == Some(i as int),
        r is None ==> first_where(nodes_view(nodes@), tag_pred(tag@)) is None,
{
    let ghost nv = nodes_view(nodes@);
    let n = nodes.len();
    for i in 0..n
        invariant
            n == nodes@.len(),
            nv == nodes_view(nodes@),
            forall|j: int| 0 <= j < i ==> !tag_pred(tag@)(#[trigger] nv[j]),
    {
        let is = match &nodes[i].element {
            Some(e) => str_equal(e.as_str(), tag),
            None => false,
        };
        if is {
            proof {
                lemma_first_where_at(nv, tag_pred(tag@), i as int);
            }
            return Some(i);
        }
    }
    proof {
        lemma_first_where_none(nv, tag_pred(tag@));
    }
    None
}

/// The value of the first attribute named `name`.
fn find_attribute(attrs: &Vec<XmlAttribute>, name: &str) -> (r: Option<String>)
    ensures
        r.deep_view() == attribute_value(attributes_view(attrs@), name@),
{
    let ghost av = attributes_view(attrs@);
    let n = attrs.len();
    for i in 0..n
        invariant
            n == attrs@.len(),
            av == attributes_view(attrs@),
            forall|j: int| 0 <= j < i ==> !name_pred(name@)(#[trigger] av[j]),
    {
        if str_equal(attrs[i].name.as_str(), name) {
            proof {
                lemma_first_where_at(av, name_pred(name@), i as int);
            }
            return Some(attrs[i].value.clone());
        }
    }
    proof {
        lemma_first_where_none(av, name_pred(name@));
    }
    None
}

/// The trimmed text of the first element named `tag`.
fn tag_text_of(nodes: &Vec<XmlNode>, tag: &str) -> (r: Option<String>)
    ensures
        r.deep_view() == tag_text(nodes_view(nodes@), tag@),
{
    match find_element(nodes, tag) {
        Some(k) => {
            let t = match &nodes[k].text {
                Some(t) => chars_of(t.as_str()),
                None => Vec::new(),
            };
            assert(t@ == text_or_empty(nodes_view(nodes@)[k as int].text));
            Some(string_of(&trim_chars(&t)))
        },
        None => None,
    }
}

/// The dependency a node stands for, when it is a `dependency` child of `parent` with an `id`.
fn dependency_at(node: &XmlNode, parent: usize) -> (r: Option<Dependency>)
    ensures
        r is Some == (is_child_tagged(node@, parent, "dependency"@) && dependency_of(node@) is Some),
        r matches Some(d) ==> d@ == dependency_of(node@)->0,
{
    let is_dependency = match &node.element {
        Some(e) => node.parent == Some(parent) && str_equal(e.as_str(), "dependency"),
        None => false,
    };
    if !is_dependency {
        return None;
    }
    match find_attribute(&node.attributes, "id") {
        Some(id) => {
            let range = match find_attribute(&node.attributes, "version") {
                Some(v) => v,
                None => String::new(),
            };
            Some(Dependency { id, range })
        },
        None => None,
    }
}

/// The dependencies listed under the node `parent`.
fn dependencies_of(nodes: &Vec<XmlNode>, parent: usize) -> (r: Vec<Dependency>)
    ensures
        dependencies_view(r@) == dependencies_under(nodes_view(nodes@), parent),
{
    let ghost nv = nodes_view(nodes@);
    let mut r: Vec<Dependency> = Vec::new();
    let n = nodes.len();
    for i in 0..n
        invariant
            n == nodes@.len(),
            nv == nodes_view(nodes@),
            dependencies_view(r@) == dependencies_under(nv.take(i as int), parent),
    {
        assert(nv.take(i + 1).drop_last() == nv.take(i as int));
        assert(nv.take(i + 1).last() == nodes@[i as int]@);
        match dependency_at(&nodes[i], parent) {
            Some(d) => {
                let ghost before = r@;
                r.push(d);
                assert(dependencies_view(r@) =~= dependencies_view(before).push(d@));
            },
            None => {},
        }
    }
    assert(nv.take(n as int) == nv);
    r
}

/// The groups listed under the node `parent`.
fn groups_of(nodes: &Vec<XmlNode>, parent: usize) -> (r: Vec<DependencyGroup>)
    ensures
        groups_view(r@) == groups_under(nodes_view(nodes@), nodes_view(nodes@), parent),
{
    let ghost nv = nodes_view(nodes@);
    let mut r: Vec<DependencyGroup> = Vec::new();
    let n = nodes.len();
    for i in 0..n
        invariant
            n == nodes@.len(),
            nv == nodes_view(nodes@),
            groups_view(r@) == groups_under(nv, nv.take(i as int), parent),
    {
        assert(nv.take(i + 1).drop_last() == nv.take(i as int));
        assert(nv.take(i + 1).last() == nodes@[i as int]@);
        let node = &nodes[i];
        let is_group = match &node.element {
            Some(e) => node.parent == Some(parent) && str_equal(e.as_str(), "group"),
            None => false,
        };
        if is_group {
            let target_framework = match find_attribute(&node.attributes, "targetFramework") {
                Some(t) => if !t.as_str().is_empty() {
                    Some(t)
                } else {
                    None
                },
                None => None,
            };
            let dependencies = dependencies_of(nodes, node.id);
            let g = DependencyGroup { target_framework, dependencies };
            assert(g@ == group_of(nv, node@));
            let ghost before = r@;
            r.push(g);
            assert(groups_view(r@) =~= groups_view(before).push(g@));
        }
    }
    assert(nv.take(n as int) == nv);
    r
}

/// The dependency groups of the document.
fn dependency_groups_of(nodes: &Vec<XmlNode>) -> (r: Vec<DependencyGroup>)
    ensures
        groups_view(r@) == dependency_groups(nodes_view(nodes@)),
{
    match find_element(nodes, "dependencies") {
        None => {
            let r: Vec<DependencyGroup> = Vec::new();
            assert(groups_view(r@) =~= Seq::<DependencyGroupView>::empty());
            r
        },
        Some(k) => {
            let d = nodes[k].id;
            let mut groups = groups_of(nodes, d);
            let flat = dependencies_of(nodes, d);
            if flat.len() > 0 {
                let ghost before = groups@;
                let g = DependencyGroup { target_framework: None, dependencies: flat };
                groups.push(g);
                assert(groups_view(groups@) =~= groups_view(before).push(g@));
            }
            groups
        },
    }
}

/// `t`, trimmed, is `true` in any ASCII case.
fn is_true(t: &String) -> (r: bool)
    ensures
        r == (ascii_lower(trim(t@)) == ascii_lower("true"@)),
{
    let a = ascii_lower_chars(&trim_chars(&chars_of(t.as_str())));
    let b = ascii_lower_chars(&chars_of("true"));
    let c = compare_chars(&a, &b);
    proof {
        lemma_chars_order_facts(a@, b@);
    }
    c == 0
}

// ---------------------------------------------------------------------------
// Outside calls
// ---------------------------------------------------------------------------

/// `chrono::Utc::now().timestamp()`: the current time in seconds since the Unix
/// epoch. Nothing is claimed of the value.
#[verifier::external_body]
fn now_timestamp() -> i64 {
    chrono::Utc::now().timestamp()
}

/// `zip::result::ZipError`, the error of the `zip` crate: carried out of the wrappers
/// below unopened; nothing is read from it.
#[verifier::external_type_specification]
#[verifier::external_body]
pub struct ExZipError(zip::result::ZipError);

/// The names of the entries of the zip archive `archive`, in archive order (`None` for a
/// name that could not be decoded), or `None` when the `zip` crate cannot open it.
pub uninterp spec fn zip_entry_names(archive: Seq<u8>) -> Option<Seq<Option<Seq<char>>>>;

/// The uncompressed bytes of the entry `name` of the zip archive `archive`, or `None`
/// when the `zip` crate cannot open the archive, find the entry or read it.
pub uninterp spec fn zip_entry_data(archive: Seq<u8>, name: Seq<char>) -> Option<Seq<u8>>;

/// `zip::ZipArchive::new` over the bytes, then `ZipArchive::file_names`; the result is
/// named `zip_entry_names`.
#[verifier::external_body]
fn zip_names(archive: &[u8]) -> (r: Result<Vec<Option<String>>, zip::result::ZipError>)
    ensures
        r matches Ok(names) ==> zip_entry_names(archive@) == Some(names.deep_view()),
        r is Err ==> zip_entry_names(archive@) is None,
{
    let archive = zip::ZipArchive::new(std::io::Cursor::new(archive))?;
    Ok(archive.file_names().map(|n| n.ok().map(|n| n.into_owned())).collect())
}

/// `zip::ZipArchive::new` over the bytes, then `ZipArchive::by_name` and reading the
/// entry to its end; the result is named `zip_entry_data`.
#[verifier::external_body]
fn zip_entry(archive: &[u8], name: &str) -> (r: Result<Vec<u8>, zip::result::ZipError>)
    ensures
        r matches Ok(data) ==> zip_entry_data(archive@, name@) == Some(data@),
        r is Err ==> zip_entry_data(archive@, name@) is None,
{
    let mut archive = zip::ZipArchive::new(std::io::Cursor::new(archive))?;
    let mut data = Vec::new();
    std::io::Read::read_to_end(&mut archive.by_name(name)?, &mut data)?;
    Ok(data)
}

/// `String::from_utf8`: the text the bytes spell, when they are valid UTF-8.
#[verifier::external_body]
fn utf8_text(bytes: Vec<u8>) -> (r: Option<String>)
    ensures
        r is Some == valid_utf8(bytes@),
        r matches Some(s) ==> s@ == decode_utf8(bytes@),
{
    String::from_utf8(bytes).ok()
}

// ---------------------------------------------------------------------------
// Nuspec
// ---------------------------------------------------------------------------

impl Nuspec {
    /// The package id equals `id`, ignoring case (both lower-cased).
    pub fn match_id(&self, id: &str) -> (r: bool)
        ensures
            r == (unicode_lowercase(self.id@) == unicode_lowercase(id@)),
    {
        let a = to_lowercase(self.id.as_str());
        let b = to_lowercase(id);
        str_equal(a.as_str(), b.as_str())
    }

    /// Reads the metadata of the package file `file` from its nuspec document `xml`,
    /// already parsed into `nodes`, stamping it with the time `published`.
    pub fn from_nodes(xml: &str, file: &str, nodes: &Vec<XmlNode>, published: i64) -> (r: Result<
        Nuspec,
        NuspecError,
    >)
        ensures
            r matches Ok(n) ==> nuspec_of(xml@, file@, nodes_view(nodes@), published) == Ok::<
                NuspecView,
                NuspecError,
            >(n@),
            r matches Err(e) ==> nuspec_of(xml@, file@, nodes_view(nodes@), published) == Err::<
                NuspecView,
                NuspecError,
            >(e),
    {
        let version_text = tag_text_of(nodes, "version");
        let parsed = match &version_text {
            Some(t) => NugetVersion::parse(t.as_str()),
            None => NugetVersion::parse("1.0.0"),
        };
        let version = match parsed {
            Ok(v) => v,
            Err(e) => {
                return Err(NuspecError::Version(e));
            },
        };
        let id = match tag_text_of(nodes, "id") {
            Some(t) => t,
            None => String::new(),
        };
        let description = match tag_text_of(nodes, "description") {
            Some(t) => t,
            None => String::new(),
        };
        let authors = match tag_text_of(nodes, "authors") {
            Some(t) => t,
            None => String::new(),
        };
        let tags_text = match tag_text_of(nodes, "tags") {
            Some(t) => chars_of(t.as_str()),
            None => Vec::new(),
        };
        let tags = strings_of(&words_of(&tags_text));
        let project_url = tag_text_of(nodes, "projectUrl");
        let license_url = tag_text_of(nodes, "licenseUrl");
        let license = tag_text_of(nodes, "license");
        let require_license_acceptance = match tag_text_of(nodes, "requireLicenseAcceptance") {
            Some(t) => is_true(&t),
            None => false,
        };
        let dependency_groups = dependency_groups_of(nodes);
        Ok(
            Nuspec {
                file: file.to_owned(),
                xml: xml.to_owned(),
                id,
                description,
                authors,
                tags,
                version,
                project_url,
                license_url,
                license,
                require_license_acceptance,
                dependency_groups,
                published,
            },
        )
    }

    /// Reads the metadata of the package file `path` from its nuspec document `s`,
    /// stamped with the current time.
    pub fn deserialize(s: &str, path: &str) -> (r: Result<Nuspec, NuspecError>)
        ensures
            r matches Ok(n) ==> read_nuspec(s@, path@, n.published) == Ok::<NuspecView, NuspecError>(
                n@,
            ),
            r matches Err(e) ==> forall|p: i64|
                read_nuspec(s@, path@, p) == Err::<NuspecView, NuspecError>(e),
    {
        let nodes = match parse_xml(s) {
            Ok(nodes) => nodes,
            Err(_) => {
                return Err(NuspecError::Xml);
            },
        };
        let published = now_timestamp();
        Self::from_nodes(s, path, &nodes, published)
    }

    /// The name of the archive entry that holds the nuspec: the first name, in archive
    /// order, that ends in `.nuspec` (names that could not be decoded are `None`).
    pub fn nuspec_entry_name(names: &Vec<Option<String>>) -> (r: Option<String>)
        ensures
            r.deep_view() == match first_where(names.deep_view(), nuspec_entry_pred()) {
                Some(k) => names.deep_view()[k],
                None => None,
            },
    {
        let ghost nv = names.deep_view();
        let suffix = chars_of(".nuspec");
        let n = names.len();
        for i in 0..n
            invariant
                n == names@.len(),
                nv == names.deep_view(),
                suffix@ == ".nuspec"@,
                forall|j: int| 0 <= j < i ==> !nuspec_entry_pred()(#[trigger] nv[j]),
        {
            match &names[i] {
                Some(name) => {
                    if ends_with_chars(&chars_of(name.as_str()), &suffix) {
                        proof {
                            lemma_first_where_at(nv, nuspec_entry_pred(), i as int);
                        }
                        return Some(name.clone());
                    }
                },
                None => {},
            }
        }
        proof {
            lemma_first_where_none(nv, nuspec_entry_pred());
        }
        None
    }

    /// Reads the metadata of the package file `path` from the bytes `archive` of that
    /// file, a zip archive: from its first entry whose name ends in `.nuspec`.
    pub fn unpack(archive: &[u8], path: &str) -> (r: Result<Nuspec, NuspecError>)
        ensures
            r matches Ok(n) ==> unpack_package(archive@, path@, n.published) == Ok::<
                NuspecView,
                NuspecError,
            >(n@),
            r matches Err(e) ==> forall|p: i64|
                unpack_package(archive@, path@, p) == Err::<NuspecView, NuspecError>(e),
    {
        let names = match zip_names(archive) {
            Ok(names) => names,
            Err(_) => {
                return Err(NuspecError::Archive);
            },
        };
        proof {
            lemma_first_where(names.deep_view(), nuspec_entry_pred());
        }
        let name = match Self::nuspec_entry_name(&names) {
            Some(name) => name,
            None => {
                return Err(NuspecError::NoNuspec);
            },
        };
        let data = match zip_entry(archive, name.as_str()) {
            Ok(data) => data,
            Err(_) => {
                return Err(NuspecError::Archive);
            },
        };
        let text = match utf8_text(data) {
            Some(text) => text,
            None => {
                return Err(NuspecError::NotUtf8);
            },
        };
        Self::deserialize(text.as_str(), path)
    }
}

impl Clone for Nuspec {
    fn clone(&self) -> (r: Self)
        ensures
            r@ == self@,
    {
        let tags = self.tags.clone();
        assert forall|i: int| 0 <= i < tags@.len() implies tags@[i] == self.tags@[i] by {
            assert(cloned::<String>(self.tags[i], tags[i]));
        }
        assert(tags@ =~= self.tags@);
        let dependency_groups = self.dependency_groups.clone();
        assert forall|i: int| 0 <= i < dependency_groups@.len() implies dependency_groups@[i]@
            == self.dependency_groups@[i]@ by {
            assert(cloned::<DependencyGroup>(self.dependency_groups[i], dependency_groups[i]));
        }
        assert(groups_view(dependency_groups@) =~= groups_view(self.dependency_groups@));
        Nuspec {
            file: self.file.clone(),
            xml: self.xml.clone(),
            id: self.id.clone(),
            description: self.description.clone(),
            authors: self.authors.clone(),
            tags,
            version: self.version.clone(),
            project_url: clone_text(&self.project_url),
            license_url: clone_text(&self.license_url),
            license: clone_text(&self.license),
            require_license_acceptance: self.require_license_acceptance,
            dependency_groups,
            published: self.published,
        }
    }
}

impl Default for Nuspec {
    fn default() -> (r: Self)
        ensures
            r@ == (NuspecView {
                file: Seq::<char>::empty(),
                xml: Seq::<char>::empty(),
                id: Seq::<char>::empty(),
                description: Seq::<char>::empty(),
                authors: Seq::<char>::empty(),
                tags: Seq::<Seq<char>>::empty(),
                version: NugetVersionView {
                    major: 0,
                    minor: 0,
                    patch: 0,
                    revision: 0,
                    prerelease: None,
                    metadata: None,
                },
                project_url: None,
                license_url: None,
                license: None,
                require_license_acceptance: false,
                dependency_groups: Seq::<DependencyGroupView>::empty(),
                published: 0,
            }),
    {
        let tags: Vec<String> = Vec::new();
        let dependency_groups: Vec<DependencyGroup> = Vec::new();
        assert(tags.deep_view() =~= Seq::<Seq<char>>::empty());
        assert(groups_view(dependency_groups@) =~= Seq::<DependencyGroupView>::empty());
        Nuspec {
            file: String::new(),
            xml: String::new(),
            id: String::new(),
            description: String::new(),
            authors: String::new(),
            tags,
            version: NugetVersion::default(),
            project_url: None,
            license_url: None,
            license: None,
            require_license_acceptance: false,
            dependency_groups,
            published: 0,
        }
    }
}

fn clone_text(o: &Option<String>) -> (r: Option<String>)
    ensures
        r == *o,
{
    match o {
        Some(s) => Some(s.clone()),
        None => None,
    }
}

} // verus!
