//! The parts of an XML document that a nuspec is read from, as plain values.
use vstd::prelude::*;

verus! {

/// `roxmltree::Error`, the parser's error: carried out of `parse_xml` unopened; nothing
/// is read from it.
#[verifier::external_type_specification]
#[verifier::external_body]
pub struct ExXmlError(roxmltree::Error);

/// An attribute: its local name and its value.
pub struct XmlAttribute {
    pub name: String,
    pub value: String,
}

/// One node of a parsed document. The nodes of a document are listed in document
/// order, the root node first; `id` identifies a node and `parent` names its parent
/// by that identifier.
pub struct XmlNode {
    pub id: usize,
    pub parent: Option<usize>,
    /// The local tag name, for an element.
    pub element: Option<String>,
    /// For an element, the text of its first child when that child is text;
    /// for a text or comment node, its text.
    pub text: Option<String>,
    pub attributes: Vec<XmlAttribute>,
}

/// The mathematical value of an [`XmlNode`].
pub struct XmlNodeView {
    pub id: usize,
    pub parent: Option<usize>,
    pub element: Option<Seq<char>>,
    pub text: Option<Seq<char>>,
    pub attributes: Seq<(Seq<char>, Seq<char>)>,
}

impl View for XmlNode {
    type V = XmlNodeView;

    open spec fn view(&self) -> XmlNodeView {
        XmlNodeView {
            id: self.id,
            parent: self.parent,
            element: self.element.deep_view(),
            text: self.text.deep_view(),
            attributes: attributes_view(self.attributes@),
        }
    }
}

/// The (name, value) pairs of a sequence of attributes.
pub open spec fn attributes_view(v: Seq<XmlAttribute>) -> Seq<(Seq<char>, Seq<char>)> {
    v.map_values(|a: XmlAttribute| (a.name@, a.value@))
}

/// The views of a sequence of nodes.
pub open spec fn nodes_view(v: Seq<XmlNode>) -> Seq<XmlNodeView> {
    v.map_values(|n: XmlNode| n@)
}

/// The nodes, in document order, of the XML document `text` as roxmltree reads it,
/// or `None` when roxmltree refuses the text.
pub uninterp spec fn xml_document_nodes(text: Seq<char>) -> Option<Seq<XmlNodeView>>;

/// `roxmltree::Document::parse`, with the document's nodes (`Document::descendants`)
/// read out as plain values; the result is named `xml_document_nodes`.
#[verifier::external_body]
pub(crate) fn parse_xml(text: &str) -> (r: Result<Vec<XmlNode>, roxmltree::Error>)
    ensures
        r matches Ok(nodes) ==> xml_document_nodes(text@) == Some(nodes_view(nodes@)),
        r is Err ==> xml_document_nodes(text@) is None,
{
    let doc = roxmltree::Document::parse(text)?;
    Ok(doc.descendants().map(|n| XmlNode {
        id: n.id().get_usize(),
        parent: n.parent().map(|p| p.id().get_usize()),
        element: if n.is_element() { Some(n.tag_name().name().to_owned()) } else { None },
        text: n.text().map(str::to_owned),
        attributes: n.attributes().map(|a| XmlAttribute {
            name: a.name().to_owned(),
            value: a.value().to_owned(),
        }).collect(),
    }).collect())
}

} // verus!
