//! NuGet package versions: `major[.minor[.patch[.revision]]][-prerelease][+metadata]`,
//! their parsing, their display form and their precedence.
use vstd::prelude::*;
use std::cmp::Ordering;
use vstd::std_specs::cmp::PartialEqSpecImpl;
use vstd::std_specs::cmp::PartialOrdSpecImpl;
use crate::text::{
    ascii_lower, ascii_lower_chars, chars_of, chars_order, compare_chars, decimal, digits_value,
    is_ascii_alnum, is_digit_exec, opt_chars, is_number_text, lemma_chars_deep_view, lemma_split_len,
    parse_number, push_char, lemma_chars_order_facts, lemma_chars_order_trans, lacks,
    lemma_first_index_at, lemma_first_index_none, lemma_split_lacking, lemma_split_concat,
    lemma_split_chars_ok, lemma_decimal, lemma_decimal_lacks, lemma_ascii_lower_idempotent,
    lemma_first_index_lower, lemma_split_lower, lemma_number_text_lower, lower_pieces, is_caseless,
    is_digit, first_index, lemma_first_index, push_decimal, push_str, split, split_chars, split_once,
    split_once_chars, string_of,
};

verus! {

/// A NuGet version. Two versions are equal when they have the same precedence:
/// build metadata plays no part, and prerelease identifiers compare numerically
/// where they are numbers and case-insensitively otherwise.
#[derive(Debug)]
pub struct NugetVersion {
    pub major: u32,
    pub minor: u32,
    pub patch: u32,
    pub revision: u32,
    pub prerelease: Option<String>,
    pub metadata: Option<String>,
}

/// The mathematical value of a [`NugetVersion`].
pub struct NugetVersionView {
    pub major: u32,
    pub minor: u32,
    pub patch: u32,
    pub revision: u32,
    pub prerelease: Option<Seq<char>>,
    pub metadata: Option<Seq<char>>,
}

impl View for NugetVersion {
    type V = NugetVersionView;

    open spec fn view(&self) -> NugetVersionView {
        NugetVersionView {
            major: self.major,
            minor: self.minor,
            patch: self.patch,
            revision: self.revision,
            prerelease: self.prerelease.deep_view(),
            metadata: self.metadata.deep_view(),
        }
    }
}

/// Why a version string was refused.
#[derive(Debug, PartialEq, Eq, Structural, Clone, Copy)]
pub enum VersionError {
    /// One of the first four dot-separated components is not a decimal `u32`.
    InvalidComponent,
    /// There are more than four numeric components.
    TooManyComponents,
    /// The text after the first `-` is not a dot-separated list of non-empty
    /// identifiers made of ASCII letters, digits and `-`.
    InvalidPrerelease,
    /// The text after the first `+` is not such a list.
    InvalidMetadata,
}

/// One dot-separated identifier of a prerelease label, as it takes part in precedence.
/// With `Eq` and `Hash`, a version's `precedence_key` can serve as a hash key that
/// agrees with version equality (`law_equal_iff_same_precedence_key`).
#[derive(Debug, PartialEq, Eq, Hash)]
pub enum Identifier {
    Numeric(u64),
    Alpha(String),
}

/// The mathematical value of an [`Identifier`].
pub enum IdentifierView {
    Numeric(u64),
    Alpha(Seq<char>),
}

impl View for Identifier {
    type V = IdentifierView;

    open spec fn view(&self) -> IdentifierView {
        match self {
            Identifier::Numeric(n) => IdentifierView::Numeric(*n),
            Identifier::Alpha(s) => IdentifierView::Alpha(s@),
        }
    }
}

// ---------------------------------------------------------------------------
// Specification
// ---------------------------------------------------------------------------

/// A non-empty run of ASCII letters, digits and `-`.
pub open spec fn valid_identifier(id: Seq<char>) -> bool {
    &&& id.len() > 0
    &&& forall|j: int| 0 <= j < id.len() ==> is_ascii_alnum(#[trigger] id[j]) || id[j] == '-'
}

/// A prerelease or metadata label: non-empty, and every dot-separated piece is a valid identifier.
pub open spec fn valid_label(v: Seq<char>) -> bool {
    &&& v.len() > 0
    &&& forall|i: int| 0 <= i < split(v, '.').len() ==> valid_identifier(#[trigger] split(v, '.')[i])
}

/// A numeric component: decimal digits whose value fits in `u32`.
pub open spec fn component_ok(p: Seq<char>) -> bool {
    is_number_text(p, 4294967295)
}

/// The value of the `i`-th numeric component, or 0 when there is none.
pub open spec fn component_value(parts: Seq<Seq<char>>, i: int) -> u32 {
    if i < parts.len() {
        digits_value(parts[i]) as u32
    } else {
        0
    }
}

/// The label as stored: lower-cased.
pub open spec fn stored_label(l: Option<Seq<char>>) -> Option<Seq<char>> {
    match l {
        Some(p) => Some(ascii_lower(p)),
        None => None,
    }
}

/// What parsing `s` gives: the text after the first `+` is build metadata, the text
/// after the first `-` of what precedes it is the prerelease label, and the rest is one
/// to four dot-separated `u32` components, missing ones being 0.
pub open spec fn parse_version(s: Seq<char>) -> Result<NugetVersionView, VersionError> {
    let (rest, metadata) = split_once(s, '+');
    let (numeric, prerelease) = split_once(rest, '-');
    let parts = split(numeric, '.');
    if exists|i: int| 0 <= i < parts.len() && i < 4 && !component_ok(#[trigger] parts[i]) {
        Err(VersionError::InvalidComponent)
    } else if parts.len() > 4 {
        Err(VersionError::TooManyComponents)
    } else if prerelease matches Some(p) && !valid_label(p) {
        Err(VersionError::InvalidPrerelease)
    } else if metadata matches Some(m) && !valid_label(m) {
        Err(VersionError::InvalidMetadata)
    } else {
        Ok(
            NugetVersionView {
                major: component_value(parts, 0),
                minor: component_value(parts, 1),
                patch: component_value(parts, 2),
                revision: component_value(parts, 3),
                prerelease: stored_label(prerelease),
                metadata: stored_label(metadata),
            },
        )
    }
}

/// The display form: `major.minor.patch`, then `.revision` when it is not 0, then
/// `-prerelease` when there is one. Metadata is not shown.
pub open spec fn display(v: NugetVersionView) -> Seq<char> {
    let base = decimal(v.major as nat) + seq!['.'] + decimal(v.minor as nat) + seq!['.'] + decimal(
        v.patch as nat,
    );
    let with_revision = if v.revision > 0 {
        base + seq!['.'] + decimal(v.revision as nat)
    } else {
        base
    };
    match v.prerelease {
        Some(p) => with_revision + seq!['-'] + p,
        None => with_revision,
    }
}

/// How one prerelease identifier takes part in precedence: a number when it is all
/// digits and fits in `u64`, otherwise its ASCII-lower-cased text.
pub open spec fn identifier_of(s: Seq<char>) -> IdentifierView {
    if is_number_text(s, 18446744073709551615) {
        IdentifierView::Numeric(digits_value(s) as u64)
    } else {
        IdentifierView::Alpha(ascii_lower(s))
    }
}

/// The identifiers of a prerelease label.
pub open spec fn label_identifiers(p: Seq<char>) -> Seq<IdentifierView> {
    split(p, '.').map_values(|x: Seq<char>| identifier_of(x))
}

/// Precedence of identifiers: numbers before text, numbers by value, text by code point.
pub open spec fn identifier_order(a: IdentifierView, b: IdentifierView) -> int {
    match (a, b) {
        (IdentifierView::Numeric(x), IdentifierView::Numeric(y)) => if x < y {
            -1
        } else if y < x {
            1
        } else {
            0
        },
        (IdentifierView::Numeric(_), IdentifierView::Alpha(_)) => -1,
        (IdentifierView::Alpha(_), IdentifierView::Numeric(_)) => 1,
        (IdentifierView::Alpha(x), IdentifierView::Alpha(y)) => chars_order(x, y),
    }
}

/// Lexicographic precedence of identifier sequences; a proper prefix comes first.
pub open spec fn identifiers_order(a: Seq<IdentifierView>, b: Seq<IdentifierView>) -> int
    decreases a.len(),
{
    if a.len() == 0 && b.len() == 0 {
        0
    } else if a.len() == 0 {
        -1
    } else if b.len() == 0 {
        1
    } else if identifier_order(a[0], b[0]) != 0 {
        identifier_order(a[0], b[0])
    } else {
        identifiers_order(a.drop_first(), b.drop_first())
    }
}

/// Compares two numbers: -1, 0 or 1.
pub open spec fn number_order(x: u32, y: u32) -> int {
    if x < y {
        -1
    } else if y < x {
        1
    } else {
        0
    }
}

/// Version precedence (-1, 0 or 1): the four numbers in order, then a release above
/// any prerelease of the same numbers, then prerelease identifiers in order.
pub open spec fn version_order(a: NugetVersionView, b: NugetVersionView) -> int {
    if a.major != b.major {
        number_order(a.major, b.major)
    } else if a.minor != b.minor {
        number_order(a.minor, b.minor)
    } else if a.patch != b.patch {
        number_order(a.patch, b.patch)
    } else if a.revision != b.revision {
        number_order(a.revision, b.revision)
    } else {
        match (a.prerelease, b.prerelease) {
            (None, None) => 0,
            (None, Some(_)) => 1,
            (Some(_), None) => -1,
            (Some(x), Some(y)) => identifiers_order(label_identifiers(x), label_identifiers(y)),
        }
    }
}

/// What precedence looks at: the four numbers and the prerelease identifiers.
pub open spec fn precedence_key_of(v: NugetVersionView) -> (
    u32,
    u32,
    u32,
    u32,
    Option<Seq<IdentifierView>>,
) {
    (
        v.major,
        v.minor,
        v.patch,
        v.revision,
        match v.prerelease {
            Some(p) => Some(label_identifiers(p)),
            None => None,
        },
    )
}

/// The view of a vector of identifiers.
pub open spec fn identifiers_view(v: Seq<Identifier>) -> Seq<IdentifierView> {
    v.map_values(|x: Identifier| x@)
}

/// The standard ordering that a precedence number stands for.
pub open spec fn ordering_of(x: int) -> Ordering {
    if x < 0 {
        Ordering::Less
    } else if x == 0 {
        Ordering::Equal
    } else {
        Ordering::Greater
    }
}

// ---------------------------------------------------------------------------
// Labels
// ---------------------------------------------------------------------------

/// Checks `valid_identifier`.
fn identifier_is_valid(id: &Vec<char>) -> (r: bool)
    ensures
        r == valid_identifier(id@),
{
    if id.len() == 0 {
        return false;
    }
    let n = id.len();
    for j in 0..n
        invariant
            n == id@.len(),
            forall|k: int| 0 <= k < j ==> is_ascii_alnum(#[trigger] id@[k]) || id@[k] == '-',
    {
        let c = id[j];
        let ok = is_digit_exec(c) || ('a' <= c && c <= 'z') || ('A' <= c && c <= 'Z') || c == '-';
        if !ok {
            return false;
        }
    }
    true
}

/// Checks `valid_label`.
fn label_is_valid(v: &Vec<char>) -> (r: bool)
    ensures
        r == valid_label(v@),
{
    if v.len() == 0 {
        return false;
    }
    let pieces = split_chars(v, '.');
    let n = pieces.len();
    for i in 0..n
        invariant
            n == pieces@.len(),
            pieces.deep_view() == split(v@, '.'),
            forall|k: int| 0 <= k < i ==> valid_identifier(#[trigger] split(v@, '.')[k]),
    {
        proof {
            lemma_chars_deep_view(pieces@[i as int]);
        }
        if !identifier_is_valid(&pieces[i]) {
            assert(!valid_identifier(split(v@, '.')[i as int]));
            return false;
        }
    }
    true
}

/// The label as stored, or the error when it is not valid (`label` in the parser).
fn label(value: Option<Vec<char>>, err: VersionError) -> (r: Result<Option<String>, VersionError>)
    ensures
        r matches Ok(l) ==> ((value matches Some(p) ==> valid_label(p@)) && l.deep_view()
            == stored_label(opt_chars(value))),
        r matches Err(e) ==> e == err && (value matches Some(p) && !valid_label(p@)),
{
    match value {
        None => Ok(None),
        Some(p) => {
            if !label_is_valid(&p) {
                return Err(err);
            }
            Ok(Some(string_of(&ascii_lower_chars(&p))))
        },
    }
}

// ---------------------------------------------------------------------------
// Identifiers
// ---------------------------------------------------------------------------

impl Identifier {
    /// The identifier that the text `s` stands for.
    pub fn parse(s: &str) -> (r: Identifier)
        ensures
            r@ == identifier_of(s@),
    {
        Self::from_chars(&chars_of(s))
    }

    /// The identifier that the characters `v` stand for.
    pub fn from_chars(v: &Vec<char>) -> (r: Identifier)
        ensures
            r@ == identifier_of(v@),
    {
        assert(v@.subrange(0, v@.len() as int) == v@);
        match parse_number(v, 0, v.len(), 18446744073709551615u64) {
            Some(n) => Identifier::Numeric(n),
            None => Identifier::Alpha(string_of(&ascii_lower_chars(v))),
        }
    }

    /// Identifier precedence: -1, 0 or 1.
    pub fn compare(&self, other: &Identifier) -> (r: i8)
        ensures
            r == identifier_order(self@, other@),
    {
        match (self, other) {
            (Identifier::Numeric(x), Identifier::Numeric(y)) => if *x < *y {
                -1
            } else if *y < *x {
                1
            } else {
                0
            },
            (Identifier::Numeric(_), Identifier::Alpha(_)) => -1,
            (Identifier::Alpha(_), Identifier::Numeric(_)) => 1,
            (Identifier::Alpha(x), Identifier::Alpha(y)) => compare_chars(
                &chars_of(x.as_str()),
                &chars_of(y.as_str()),
            ),
        }
    }
}

/// The identifiers of the prerelease label `p`.
fn label_identifiers_of(p: &String) -> (r: Vec<Identifier>)
    ensures
        identifiers_view(r@) == label_identifiers(p@),
{
    let pieces = split_chars(&chars_of(p.as_str()), '.');
    let ghost sp = split(p@, '.');
    let n = pieces.len();
    let mut r: Vec<Identifier> = Vec::new();
    for i in 0..n
        invariant
            n == pieces@.len(),
            pieces.deep_view() == sp,
            sp == split(p@, '.'),
            r@.len() == i,
            identifiers_view(r@) == sp.take(i as int).map_values(|x: Seq<char>| identifier_of(x)),
    {
        proof {
            lemma_chars_deep_view(pieces@[i as int]);
        }
        let id = Identifier::from_chars(&pieces[i]);
        assert(sp[i as int] == pieces@[i as int]@);
        let ghost before = r@;
        r.push(id);
        assert forall|j: int| 0 <= j < i + 1 implies #[trigger] identifiers_view(r@)[j]
            == sp.take(i + 1).map_values(|x: Seq<char>| identifier_of(x))[j] by {
            if j < i {
                assert(r@[j] == before[j]);
                assert(identifiers_view(before)[j] == sp.take(i as int).map_values(
                    |x: Seq<char>| identifier_of(x),
                )[j]);
            }
        }
        assert(identifiers_view(r@) =~= sp.take(i + 1).map_values(
            |x: Seq<char>| identifier_of(x),
        ));
    }
    assert(sp.take(n as int) == sp);
    r
}

/// Lexicographic precedence of identifier sequences: -1, 0 or 1.
fn compare_identifiers(a: &Vec<Identifier>, b: &Vec<Identifier>) -> (r: i8)
    ensures
        r == identifiers_order(identifiers_view(a@), identifiers_view(b@)),
{
    let ghost va = identifiers_view(a@);
    let ghost vb = identifiers_view(b@);
    let mut i: usize = 0;
    assert(va.skip(0) == va && vb.skip(0) == vb);
    while i < a.len() && i < b.len()
        invariant
            i <= a@.len(),
            i <= b@.len(),
            va == identifiers_view(a@),
            vb == identifiers_view(b@),
            identifiers_order(va, vb) == identifiers_order(va.skip(i as int), vb.skip(i as int)),
        decreases a@.len() - i,
    {
        let c = a[i].compare(&b[i]);
        assert(va.skip(i as int)[0] == a@[i as int]@);
        assert(vb.skip(i as int)[0] == b@[i as int]@);
        if c != 0 {
            return c;
        }
        assert(va.skip(i as int).drop_first() == va.skip(i + 1));
        assert(vb.skip(i as int).drop_first() == vb.skip(i + 1));
        i = i + 1;
    }
    if i < a.len() {
        1
    } else if i < b.len() {
        -1
    } else {
        0
    }
}

// ---------------------------------------------------------------------------
// NugetVersion
// ---------------------------------------------------------------------------

impl NugetVersion {
    /// Parses a version string; see [`parse_version`] for exactly which strings are accepted.
    pub fn parse(s: &str) -> (r: Result<NugetVersion, VersionError>)
        ensures
            r matches Ok(v) ==> parse_version(s@) == Ok::<NugetVersionView, VersionError>(v@),
            r matches Err(e) ==> parse_version(s@) == Err::<NugetVersionView, VersionError>(e),
    {
        let chars = chars_of(s);
        let (rest, metadata) = split_once_chars(&chars, '+');
        let (numeric, prerelease) = split_once_chars(&rest, '-');
        let parts = split_chars(&numeric, '.');
        let ghost sparts = split(numeric@, '.');
        proof {
            lemma_split_len(numeric@, '.');
        }
        let count: usize = if parts.len() < 4 {
            parts.len()
        } else {
            4
        };
        let mut values: Vec<u32> = Vec::new();
        for i in 0..count
            invariant
                count <= 4,
                count <= parts@.len(),
                count == parts@.len() || count == 4,
                parts.deep_view() == sparts,
                sparts == split(numeric@, '.'),
                numeric@ == split_once(split_once(s@, '+').0, '-').0,
                values@.len() == i,
                forall|j: int|
                    0 <= j < i ==> component_ok(#[trigger] sparts[j]) && values@[j] as int
                        == digits_value(sparts[j]),
        {
            proof {
                lemma_chars_deep_view(parts@[i as int]);
            }
            let p = &parts[i];
            assert(p@.subrange(0, p@.len() as int) == p@);
            match parse_number(p, 0, p.len(), 4294967295u64) {
                Some(x) => {
                    values.push(x as u32);
                },
                None => {
                    assert(sparts[i as int] == p@);
                    assert(!component_ok(sparts[i as int]));
                    assert(exists|k: int|
                        0 <= k < sparts.len() && k < 4 && !component_ok(#[trigger] sparts[k]));
                    assert(parse_version(s@) == Err::<NugetVersionView, VersionError>(
                        VersionError::InvalidComponent,
                    ));
                    return Err(VersionError::InvalidComponent);
                },
            }
        }
        if parts.len() > 4 {
            return Err(VersionError::TooManyComponents);
        }
        assert(!exists|i: int| 0 <= i < sparts.len() && i < 4 && !component_ok(#[trigger] sparts[i]));
        let prerelease = label(prerelease, VersionError::InvalidPrerelease)?;
        let metadata = label(metadata, VersionError::InvalidMetadata)?;
        assert(sparts.len() >= 1);
        assert(values@[0] as int == digits_value(sparts[0]));
        let major = values[0];
        let minor = if count > 1 {
            values[1]
        } else {
            0
        };
        let patch = if count > 2 {
            values[2]
        } else {
            0
        };
        let revision = if count > 3 {
            values[3]
        } else {
            0
        };
        Ok(NugetVersion { major, minor, patch, revision, prerelease, metadata })
    }

    /// What precedence looks at: the four numbers and the prerelease identifiers.
    pub fn precedence_key(&self) -> (r: (u32, u32, u32, u32, Option<Vec<Identifier>>))
        ensures
            r.0 == self.major && r.1 == self.minor && r.2 == self.patch && r.3 == self.revision,
            r.4 is Some == self.prerelease is Some,
            r.4 matches Some(l) ==> identifiers_view(l@) == label_identifiers(
                self.prerelease->0@,
            ),
    {
        let labels = match &self.prerelease {
            Some(p) => Some(label_identifiers_of(p)),
            None => None,
        };
        (self.major, self.minor, self.patch, self.revision, labels)
    }

    /// Precedence against `other`: -1, 0 or 1.
    pub fn compare(&self, other: &NugetVersion) -> (r: i8)
        ensures
            r == version_order(self@, other@),
    {
        if self.major != other.major {
            return if self.major < other.major { -1 } else { 1 };
        }
        if self.minor != other.minor {
            return if self.minor < other.minor { -1 } else { 1 };
        }
        if self.patch != other.patch {
            return if self.patch < other.patch { -1 } else { 1 };
        }
        if self.revision != other.revision {
            return if self.revision < other.revision { -1 } else { 1 };
        }
        match (&self.prerelease, &other.prerelease) {
            (None, None) => 0,
            (None, Some(_)) => 1,
            (Some(_), None) => -1,
            (Some(a), Some(b)) => compare_identifiers(&label_identifiers_of(a), &label_identifiers_of(b)),
        }
    }

    /// Precedence against `other` as a standard ordering.
    pub fn cmp(&self, other: &NugetVersion) -> (r: Ordering)
        ensures
            r == ordering_of(version_order(self@, other@)),
    {
        let c = self.compare(other);
        if c < 0 {
            Ordering::Less
        } else if c == 0 {
            Ordering::Equal
        } else {
            Ordering::Greater
        }
    }

    /// The display form: `major.minor.patch[.revision][-prerelease]`.
    pub fn to_string(&self) -> (r: String)
        ensures
            r@ == display(self@),
    {
        let mut out = String::new();
        push_decimal(&mut out, self.major as u64);
        push_char(&mut out, '.');
        push_decimal(&mut out, self.minor as u64);
        push_char(&mut out, '.');
        push_decimal(&mut out, self.patch as u64);
        let ghost base = out@;
        if self.revision > 0 {
            push_char(&mut out, '.');
            push_decimal(&mut out, self.revision as u64);
        }
        let ghost with_revision = out@;
        if let Some(p) = &self.prerelease {
            push_char(&mut out, '-');
            push_str(&mut out, p.as_str());
        }
        out
    }
}


fn clone_label(o: &Option<String>) -> (r: Option<String>)
    ensures
        r == *o,
{
    match o {
        Some(s) => Some(s.clone()),
        None => None,
    }
}

impl Clone for NugetVersion {
    fn clone(&self) -> (r: Self)
        ensures
            r == *self,
    {
        NugetVersion {
            major: self.major,
            minor: self.minor,
            patch: self.patch,
            revision: self.revision,
            prerelease: clone_label(&self.prerelease),
            metadata: clone_label(&self.metadata),
        }
    }
}

impl Default for NugetVersion {
    fn default() -> (r: Self)
        ensures
            r@ == (NugetVersionView {
                major: 0,
                minor: 0,
                patch: 0,
                revision: 0,
                prerelease: None,
                metadata: None,
            }),
    {
        NugetVersion { major: 0, minor: 0, patch: 0, revision: 0, prerelease: None, metadata: None }
    }
}

impl PartialEq for NugetVersion {
    fn eq(&self, other: &Self) -> (r: bool) {
        self.compare(other) == 0
    }
}

impl PartialEqSpecImpl for NugetVersion {
    open spec fn obeys_eq_spec() -> bool {
        true
    }

    open spec fn eq_spec(&self, other: &NugetVersion) -> bool {
        version_order(self@, other@) == 0
    }
}

impl Eq for NugetVersion {

}

impl PartialOrd for NugetVersion {
    fn partial_cmp(&self, other: &Self) -> (r: Option<Ordering>) {
        Some(self.cmp(other))
    }
}

impl PartialOrdSpecImpl for NugetVersion {
    open spec fn obeys_partial_cmp_spec() -> bool {
        true
    }

    open spec fn partial_cmp_spec(&self, other: &NugetVersion) -> Option<Ordering> {
        Some(ordering_of(version_order(self@, other@)))
    }
}

impl std::str::FromStr for NugetVersion {
    type Err = VersionError;

    fn from_str(s: &str) -> (r: Result<NugetVersion, VersionError>)
        ensures
            r matches Ok(v) ==> parse_version(s@) == Ok::<NugetVersionView, VersionError>(v@),
            r matches Err(e) ==> parse_version(s@) == Err::<NugetVersionView, VersionError>(e),
    {
        NugetVersion::parse(s)
    }
}


// ---------------------------------------------------------------------------
// Laws
// ---------------------------------------------------------------------------

proof fn lemma_identifier_order(a: IdentifierView, b: IdentifierView)
    ensures
        identifier_order(a, b) == -identifier_order(b, a),
        -1 <= identifier_order(a, b) <= 1,
        identifier_order(a, b) == 0 <==> a == b,
{
    match (a, b) {
        (IdentifierView::Alpha(x), IdentifierView::Alpha(y)) => {
            lemma_chars_order_facts(x, y);
        },
        _ => {},
    }
}

proof fn lemma_identifier_order_trans(a: IdentifierView, b: IdentifierView, c: IdentifierView)
    requires
        identifier_order(a, b) <= 0,
        identifier_order(b, c) <= 0,
    ensures
        identifier_order(a, c) <= 0,
        identifier_order(a, b) < 0 || identifier_order(b, c) < 0 ==> identifier_order(a, c) < 0,
{
    lemma_identifier_order(a, b);
    lemma_identifier_order(b, c);
    lemma_identifier_order(a, c);
    match (a, b, c) {
        (IdentifierView::Alpha(x), IdentifierView::Alpha(y), IdentifierView::Alpha(z)) => {
            lemma_chars_order_trans(x, y, z);
        },
        _ => {},
    }
}

proof fn lemma_identifiers_order(a: Seq<IdentifierView>, b: Seq<IdentifierView>)
    ensures
        identifiers_order(a, b) == -identifiers_order(b, a),
        -1 <= identifiers_order(a, b) <= 1,
        identifiers_order(a, b) == 0 <==> a == b,
    decreases a.len(),
{
    if a.len() > 0 && b.len() > 0 {
        lemma_identifier_order(a[0], b[0]);
        if identifier_order(a[0], b[0]) == 0 {
            lemma_identifiers_order(a.drop_first(), b.drop_first());
            if a.drop_first() == b.drop_first() {
                assert(a =~= seq![a[0]] + a.drop_first());
                assert(b =~= seq![b[0]] + b.drop_first());
            }
        }
        if a == b {
            assert(a.drop_first() == b.drop_first());
        }
    } else if a.len() == 0 && b.len() == 0 {
        assert(a =~= b);
    }
}

proof fn lemma_identifiers_order_trans(
    a: Seq<IdentifierView>,
    b: Seq<IdentifierView>,
    c: Seq<IdentifierView>,
)
    requires
        identifiers_order(a, b) <= 0,
        identifiers_order(b, c) <= 0,
    ensures
        identifiers_order(a, c) <= 0,
        identifiers_order(a, b) < 0 || identifiers_order(b, c) < 0 ==> identifiers_order(a, c) < 0,
    decreases a.len(),
{
    lemma_identifiers_order(a, b);
    lemma_identifiers_order(b, c);
    lemma_identifiers_order(a, c);
    if a.len() > 0 && b.len() > 0 && c.len() > 0 {
        lemma_identifier_order(a[0], b[0]);
        lemma_identifier_order(b[0], c[0]);
        lemma_identifier_order(a[0], c[0]);
        if identifier_order(a[0], b[0]) <= 0 && identifier_order(b[0], c[0]) <= 0 {
            lemma_identifier_order_trans(a[0], b[0], c[0]);
        }
        if identifier_order(a[0], b[0]) == 0 && identifier_order(b[0], c[0]) == 0 {
            lemma_identifiers_order_trans(a.drop_first(), b.drop_first(), c.drop_first());
        }
    }
}

/// Precedence is antisymmetric: comparing the other way round gives the opposite answer,
/// and the answer is always -1, 0 or 1.
pub proof fn law_order_antisymmetric(a: NugetVersionView, b: NugetVersionView)
    ensures
        version_order(a, b) == -version_order(b, a),
        -1 <= version_order(a, b) <= 1,
{
    if let (Some(x), Some(y)) = (a.prerelease, b.prerelease) {
        lemma_identifiers_order(label_identifiers(x), label_identifiers(y));
    }
}

/// Precedence is reflexive: every version is equal to itself.
pub proof fn law_order_reflexive(a: NugetVersionView)
    ensures
        version_order(a, a) == 0,
{
    if let Some(x) = a.prerelease {
        lemma_identifiers_order(label_identifiers(x), label_identifiers(x));
    }
}

/// Precedence is transitive, and strictly so when one of the two steps is strict.
pub proof fn law_order_transitive(a: NugetVersionView, b: NugetVersionView, c: NugetVersionView)
    requires
        version_order(a, b) <= 0,
        version_order(b, c) <= 0,
    ensures
        version_order(a, c) <= 0,
        version_order(a, b) < 0 || version_order(b, c) < 0 ==> version_order(a, c) < 0,
{
    law_order_antisymmetric(a, b);
    law_order_antisymmetric(b, c);
    law_order_antisymmetric(a, c);
    if let (Some(x), Some(y), Some(z)) = (a.prerelease, b.prerelease, c.prerelease) {
        if version_order(a, b) <= 0 && version_order(b, c) <= 0 {
            if a.major == b.major && b.major == c.major && a.minor == b.minor && b.minor == c.minor
                && a.patch == b.patch && b.patch == c.patch && a.revision == b.revision
                && b.revision == c.revision {
                lemma_identifiers_order_trans(
                    label_identifiers(x),
                    label_identifiers(y),
                    label_identifiers(z),
                );
            }
        }
    }
}

/// Two versions are equal exactly when their precedence keys are equal, so equal
/// versions hash alike when hashed by key.
pub proof fn law_equal_iff_same_precedence_key(a: NugetVersionView, b: NugetVersionView)
    ensures
        version_order(a, b) == 0 <==> precedence_key_of(a) == precedence_key_of(b),
{
    if let (Some(x), Some(y)) = (a.prerelease, b.prerelease) {
        lemma_identifiers_order(label_identifiers(x), label_identifiers(y));
    }
}

/// Build metadata plays no part in precedence.
pub proof fn law_metadata_ignored(a: NugetVersionView, m: Option<Seq<char>>)
    ensures
        version_order(a, NugetVersionView { metadata: m, ..a }) == 0,
{
    law_order_reflexive(a);
}

/// A version whose labels are as the parser stores them: valid and lower-case.
pub open spec fn well_formed(v: NugetVersionView) -> bool {
    &&& (v.prerelease matches Some(p) ==> valid_label(p) && ascii_lower(p) == p)
    &&& (v.metadata matches Some(m) ==> valid_label(m) && ascii_lower(m) == m)
}

proof fn lemma_valid_identifier_lower(x: Seq<char>)
    ensures
        valid_identifier(ascii_lower(x)) == valid_identifier(x),
{
    let l = ascii_lower(x);
    assert forall|j: int| 0 <= j < x.len() implies ((is_ascii_alnum(#[trigger] l[j]) || l[j] == '-')
        <==> (is_ascii_alnum(x[j]) || x[j] == '-')) by {}
    if valid_identifier(x) {
        assert forall|j: int| 0 <= j < l.len() implies is_ascii_alnum(#[trigger] l[j]) || l[j]
            == '-' by {
            assert(is_ascii_alnum(x[j]) || x[j] == '-');
        }
    }
    if valid_identifier(l) {
        assert forall|j: int| 0 <= j < x.len() implies is_ascii_alnum(#[trigger] x[j]) || x[j]
            == '-' by {
            assert(is_ascii_alnum(l[j]) || l[j] == '-');
        }
    }
}

proof fn lemma_valid_label_lower(p: Seq<char>)
    ensures
        valid_label(ascii_lower(p)) == valid_label(p),
{
    lemma_split_lower(p, '.');
    let sp = split(p, '.');
    let sl = split(ascii_lower(p), '.');
    assert(sl == lower_pieces(sp));
    assert forall|i: int| 0 <= i < sp.len() implies (valid_identifier(#[trigger] sl[i])
        == valid_identifier(sp[i])) by {
        lemma_valid_identifier_lower(sp[i]);
    }
    if valid_label(p) {
        assert forall|i: int| 0 <= i < sl.len() implies valid_identifier(#[trigger] sl[i]) by {
            assert(valid_identifier(sp[i]));
        }
    }
    if valid_label(ascii_lower(p)) {
        assert forall|i: int| 0 <= i < sp.len() implies valid_identifier(#[trigger] sp[i]) by {
            assert(valid_identifier(sl[i]));
        }
    }
}

/// Whatever the parser accepts is well formed: its labels are valid and lower-case.
pub proof fn law_parse_well_formed(s: Seq<char>)
    ensures
        parse_version(s) matches Ok(v) ==> well_formed(v),
{
    let (rest, metadata) = split_once(s, '+');
    let (numeric, prerelease) = split_once(rest, '-');
    if let Some(p) = prerelease {
        lemma_valid_label_lower(p);
        lemma_ascii_lower_idempotent(p);
    }
    if let Some(m) = metadata {
        lemma_valid_label_lower(m);
        lemma_ascii_lower_idempotent(m);
    }
}

proof fn lemma_lacks_concat(x: Seq<char>, y: Seq<char>, c: char)
    requires
        lacks(x, c),
        lacks(y, c),
    ensures
        lacks(x + y, c),
{
    assert forall|i: int| 0 <= i < (x + y).len() implies (x + y)[i] != c by {
        if i < x.len() {
            assert((x + y)[i] == x[i]);
        } else {
            assert((x + y)[i] == y[i - x.len()]);
        }
    }
}

/// A valid label holds only ASCII letters, digits, `-` and `.`.
proof fn lemma_valid_label_chars(p: Seq<char>)
    requires
        valid_label(p),
    ensures
        lacks(p, '+'),
{
    let ok = |ch: char| is_ascii_alnum(ch) || ch == '-';
    let sp = split(p, '.');
    assert forall|i: int, j: int| 0 <= i < sp.len() && 0 <= j < sp[i].len() implies ok(
        #[trigger] sp[i][j],
    ) by {
        assert(valid_identifier(sp[i]));
    }
    lemma_split_chars_ok(p, '.', ok);
    assert forall|k: int| 0 <= k < p.len() implies p[k] != '+' by {
        assert(p[k] == '.' || ok(p[k]));
    }
}

/// The numeric part of the display form, and how it splits.
proof fn lemma_display_numbers(v: NugetVersionView)
    ensures
        ({
            let base = decimal(v.major as nat) + seq!['.'] + decimal(v.minor as nat) + seq!['.']
                + decimal(v.patch as nat);
            let num = if v.revision > 0 {
                base + seq!['.'] + decimal(v.revision as nat)
            } else {
                base
            };
            &&& lacks(num, '+')
            &&& lacks(num, '-')
            &&& split(num, '.') == if v.revision > 0 {
                seq![
                    decimal(v.major as nat),
                    decimal(v.minor as nat),
                    decimal(v.patch as nat),
                    decimal(v.revision as nat),
                ]
            } else {
                seq![decimal(v.major as nat), decimal(v.minor as nat), decimal(v.patch as nat)]
            }
        }),
{
    let a = decimal(v.major as nat);
    let b = decimal(v.minor as nat);
    let c = decimal(v.patch as nat);
    let d = decimal(v.revision as nat);
    let dot = seq!['.'];
    lemma_decimal_lacks(v.major as nat, '.');
    lemma_decimal_lacks(v.minor as nat, '.');
    lemma_decimal_lacks(v.patch as nat, '.');
    lemma_decimal_lacks(v.revision as nat, '.');
    lemma_decimal_lacks(v.major as nat, '+');
    lemma_decimal_lacks(v.minor as nat, '+');
    lemma_decimal_lacks(v.patch as nat, '+');
    lemma_decimal_lacks(v.revision as nat, '+');
    lemma_decimal_lacks(v.major as nat, '-');
    lemma_decimal_lacks(v.minor as nat, '-');
    lemma_decimal_lacks(v.patch as nat, '-');
    lemma_decimal_lacks(v.revision as nat, '-');
    lemma_split_lacking(a, '.');
    lemma_split_lacking(b, '.');
    lemma_split_lacking(c, '.');
    lemma_split_lacking(d, '.');
    let base = a + dot + b + dot + c;
    assert(base =~= a + dot + (b + dot + c));
    lemma_split_concat(b, c, '.');
    lemma_split_concat(a, b + dot + c, '.');
    assert(split(base, '.') =~= seq![a, b, c]);
    lemma_lacks_concat(a, dot, '+');
    lemma_lacks_concat(a + dot, b, '+');
    lemma_lacks_concat(a + dot + b, dot, '+');
    lemma_lacks_concat(a + dot + b + dot, c, '+');
    lemma_lacks_concat(a, dot, '-');
    lemma_lacks_concat(a + dot, b, '-');
    lemma_lacks_concat(a + dot + b, dot, '-');
    lemma_lacks_concat(a + dot + b + dot, c, '-');
    if v.revision > 0 {
        let num = base + dot + d;
        lemma_split_concat(base, d, '.');
        assert(split(num, '.') =~= seq![a, b, c, d]);
        lemma_lacks_concat(base, dot, '+');
        lemma_lacks_concat(base + dot, d, '+');
        lemma_lacks_concat(base, dot, '-');
        lemma_lacks_concat(base + dot, d, '-');
    }
}

/// Displaying a well-formed version and parsing the result gives the version back,
/// without its metadata (which the display form leaves out); the two are equal.
pub proof fn law_display_parse_round_trip(v: NugetVersionView)
    requires
        well_formed(v),
    ensures
        parse_version(display(v)) == Ok::<NugetVersionView, VersionError>(
            NugetVersionView { metadata: None, ..v },
        ),
        version_order(v, NugetVersionView { metadata: None, ..v }) == 0,
{
    law_metadata_ignored(v, None);
    lemma_display_numbers(v);
    let base = decimal(v.major as nat) + seq!['.'] + decimal(v.minor as nat) + seq!['.'] + decimal(
        v.patch as nat,
    );
    let num = if v.revision > 0 {
        base + seq!['.'] + decimal(v.revision as nat)
    } else {
        base
    };
    let s = display(v);
    let parts = split(num, '.');
    lemma_decimal(v.major as nat);
    lemma_decimal(v.minor as nat);
    lemma_decimal(v.patch as nat);
    lemma_decimal(v.revision as nat);
    match v.prerelease {
        Some(p) => {
            lemma_valid_label_chars(p);
            assert(s == num + seq!['-'] + p);
            lemma_lacks_concat(num, seq!['-'], '+');
            lemma_lacks_concat(num + seq!['-'], p, '+');
            lemma_first_index_none(s, '+');
            assert(s.take(num.len() as int) =~= num);
            lemma_first_index_at(s, '-', num.len() as int);
            assert(s.skip(num.len() as int + 1) =~= p);
        },
        None => {
            assert(s == num);
            lemma_first_index_none(s, '+');
            lemma_first_index_none(s, '-');
        },
    }
    assert(split_once(split_once(s, '+').0, '-').0 == num);
    assert(forall|i: int| 0 <= i < parts.len() ==> component_ok(#[trigger] parts[i]));
}

/// Parsing ignores ASCII case: upper-case letters in the labels are read as lower-case,
/// and nothing else in a version can be a letter.
pub proof fn law_parse_ignores_case(s: Seq<char>)
    ensures
        parse_version(ascii_lower(s)) == parse_version(s),
{
    let l = ascii_lower(s);
    lemma_first_index_lower(s, '+');
    lemma_first_index(s, '+');
    let (rest, metadata) = split_once(s, '+');
    let (lrest, lmetadata) = split_once(l, '+');
    match first_index(s, '+') {
        Some(i) => {
            assert(lrest =~= ascii_lower(rest));
            assert(lmetadata->0 =~= ascii_lower(metadata->0));
        },
        None => {
            assert(lrest =~= ascii_lower(rest));
        },
    }
    lemma_first_index_lower(rest, '-');
    lemma_first_index(rest, '-');
    let (numeric, prerelease) = split_once(rest, '-');
    let (lnumeric, lprerelease) = split_once(lrest, '-');
    match first_index(rest, '-') {
        Some(i) => {
            assert(lnumeric =~= ascii_lower(numeric));
            assert(lprerelease->0 =~= ascii_lower(prerelease->0));
        },
        None => {
            assert(lnumeric =~= ascii_lower(numeric));
        },
    }
    lemma_split_lower(numeric, '.');
    let parts = split(numeric, '.');
    let lparts = split(lnumeric, '.');
    assert forall|i: int| 0 <= i < parts.len() implies component_ok(#[trigger] lparts[i])
        == component_ok(parts[i]) && (component_ok(parts[i]) ==> lparts[i] == parts[i]) by {
        lemma_number_text_lower(parts[i], 4294967295);
    }
    if let Some(p) = prerelease {
        lemma_valid_label_lower(p);
        lemma_ascii_lower_idempotent(p);
    }
    if let Some(m) = metadata {
        lemma_valid_label_lower(m);
        lemma_ascii_lower_idempotent(m);
    }
    if exists|i: int| 0 <= i < parts.len() && i < 4 && !component_ok(#[trigger] parts[i]) {
        let i = choose|i: int| 0 <= i < parts.len() && i < 4 && !component_ok(#[trigger] parts[i]);
        assert(!component_ok(lparts[i]));
    }
    if exists|i: int| 0 <= i < lparts.len() && i < 4 && !component_ok(#[trigger] lparts[i]) {
        let i = choose|i: int| 0 <= i < lparts.len() && i < 4 && !component_ok(#[trigger] lparts[i]);
        assert(!component_ok(parts[i]));
    }
}

/// The four numbers come first and decide as a tuple: when they differ, the version
/// whose first differing number is smaller comes first.
pub proof fn law_numbers_decide_order(a: NugetVersionView, b: NugetVersionView)
    requires
        a.major != b.major || a.minor != b.minor || a.patch != b.patch || a.revision != b.revision,
    ensures
        version_order(a, b) == if a.major < b.major || (a.major == b.major && (a.minor < b.minor || (
        a.minor == b.minor && (a.patch < b.patch || (a.patch == b.patch && a.revision
            < b.revision))))) {
            -1
        } else {
            1
        },
{
}

/// With the same numbers, a release comes after every prerelease, and two releases are
/// equal whatever their build metadata.
pub proof fn law_release_after_prerelease(a: NugetVersionView, b: NugetVersionView)
    requires
        a.major == b.major,
        a.minor == b.minor,
        a.patch == b.patch,
        a.revision == b.revision,
        a.prerelease is None,
    ensures
        b.prerelease is Some ==> version_order(a, b) == 1 && version_order(b, a) == -1,
        b.prerelease is None ==> version_order(a, b) == 0,
{
}

/// With the same numbers, a prerelease label whose dot-separated pieces begin with all
/// the pieces of another (and has more) comes after it: `alpha` before `alpha.1`.
pub proof fn law_longer_label_after_its_prefix(a: NugetVersionView, b: NugetVersionView, x: Seq<char>, y: Seq<char>)
    requires
        a.major == b.major,
        a.minor == b.minor,
        a.patch == b.patch,
        a.revision == b.revision,
        a.prerelease == Some(x),
        b.prerelease == Some(y),
        split(x, '.').len() < split(y, '.').len(),
        forall|i: int| 0 <= i < split(x, '.').len() ==> #[trigger] split(x, '.')[i] == split(y, '.')[i],
    ensures
        version_order(a, b) == -1,
{
    let p = label_identifiers(x);
    let q = label_identifiers(y);
    assert forall|i: int| 0 <= i < p.len() implies #[trigger] p[i] == q[i] by {
        assert(split(x, '.')[i] == split(y, '.')[i]);
    }
    lemma_identifiers_prefix(p, q);
}

proof fn lemma_identifiers_prefix(p: Seq<IdentifierView>, q: Seq<IdentifierView>)
    requires
        p.len() < q.len(),
        forall|i: int| 0 <= i < p.len() ==> #[trigger] p[i] == q[i],
    ensures
        identifiers_order(p, q) == -1,
    decreases p.len(),
{
    if p.len() > 0 {
        lemma_identifier_order(p[0], q[0]);
        assert forall|i: int| 0 <= i < p.drop_first().len() implies #[trigger] p.drop_first()[i]
            == q.drop_first()[i] by {
            assert(p[i + 1] == q[i + 1]);
        }
        lemma_identifiers_prefix(p.drop_first(), q.drop_first());
    }
}

/// With the same numbers, the first dot-separated pieces of two prerelease labels
/// decide when they differ: pieces of digits (that fit in `u64`) by their value and
/// before any other piece, other pieces by their lower-cased text.
pub proof fn law_first_label_piece_decides(a: NugetVersionView, b: NugetVersionView, x: Seq<char>, y: Seq<char>)
    requires
        a.major == b.major,
        a.minor == b.minor,
        a.patch == b.patch,
        a.revision == b.revision,
        a.prerelease == Some(x),
        b.prerelease == Some(y),
    ensures
        ({
            let u = split(x, '.')[0];
            let w = split(y, '.')[0];
            let un = is_number_text(u, 18446744073709551615);
            let wn = is_number_text(w, 18446744073709551615);
            &&& un && wn && digits_value(u) < digits_value(w) ==> version_order(a, b) == -1
            &&& un && !wn ==> version_order(a, b) == -1
            &&& !un && !wn && chars_order(ascii_lower(u), ascii_lower(w)) < 0 ==> version_order(a, b) == -1
        }),
{
    lemma_split_len(x, '.');
    lemma_split_len(y, '.');
    let p = label_identifiers(x);
    let q = label_identifiers(y);
    let u = split(x, '.')[0];
    let w = split(y, '.')[0];
    assert(p.len() > 0 && q.len() > 0);
    assert(p[0] == identifier_of(u));
    assert(q[0] == identifier_of(w));
    assert(version_order(a, b) == identifiers_order(p, q));
    if identifier_order(p[0], q[0]) != 0 {
        assert(identifiers_order(p, q) == identifier_order(p[0], q[0]));
    }
    if is_number_text(u, 18446744073709551615) && is_number_text(w, 18446744073709551615) {
        assert(p[0] == IdentifierView::Numeric(digits_value(u) as u64));
        assert(q[0] == IdentifierView::Numeric(digits_value(w) as u64));
        assert(digits_value(u) as u64 == digits_value(u));
        assert(digits_value(w) as u64 == digits_value(w));
    }
    lemma_chars_order_facts(ascii_lower(u), ascii_lower(w));
}

/// With the same numbers, when two prerelease labels begin with the same piece and
/// both go on, the rest of the labels decide, as if the first piece were not there:
/// `beta.2` and `beta.11` compare as `2` and `11` do.
pub proof fn law_equal_first_pieces_defer(
    a: NugetVersionView,
    b: NugetVersionView,
    x: Seq<char>,
    y: Seq<char>,
    x2: Seq<char>,
    y2: Seq<char>,
)
    requires
        a.major == b.major,
        a.minor == b.minor,
        a.patch == b.patch,
        a.revision == b.revision,
        a.prerelease == Some(x),
        b.prerelease == Some(y),
        split(x, '.').len() > 1,
        split(y, '.').len() > 1,
        split(x, '.')[0] == split(y, '.')[0],
        split(x2, '.') == split(x, '.').drop_first(),
        split(y2, '.') == split(y, '.').drop_first(),
    ensures
        version_order(a, b) == version_order(
            NugetVersionView { prerelease: Some(x2), ..a },
            NugetVersionView { prerelease: Some(y2), ..b },
        ),
{
    let p = label_identifiers(x);
    let q = label_identifiers(y);
    assert(label_identifiers(x2) =~= p.drop_first());
    assert(label_identifiers(y2) =~= q.drop_first());
    assert(p[0] == q[0]);
    lemma_identifier_order(p[0], q[0]);
}

} // verus!
