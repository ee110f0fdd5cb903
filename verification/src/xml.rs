use vstd::prelude::*;

verus! {

/// One node of a parsed document, as plain values.
#[derive(Debug, Clone)]
pub struct XmlNode {
    /// The node's place in the document, counted over all its nodes in document order.
    pub id: usize,
    /// The place of the node that holds this one.
    pub parent: Option<usize>,
    /// The local name of an element; empty for every other node.
    pub name: String,
    /// The attributes of an element, each with its local name and its value.
    pub attributes: Vec<(String, String)>,
    /// The text of a text node or of a comment; for an element, the text of its first child
    /// where that is a text node.
    pub text: Option<String>,
}

/// What an `XmlNode` says.
pub struct XmlNodeView {
    pub id: int,
    pub parent: Option<int>,
    pub name: Seq<char>,
    pub attributes: Seq<(Seq<char>, Seq<char>)>,
    pub text: Option<Seq<char>>,
}

impl View for XmlNode {
    type V = XmlNodeView;

    open spec fn view(&self) -> XmlNodeView {
        XmlNodeView {
            id: self.id as int,
            parent: match self.parent {
                Some(p) => Some(p as int),
                None => None,
            },
            name: self.name@,
            attributes: Seq::new(
                self.attributes@.len(),
                |i: int| (self.attributes@[i].0@, self.attributes@[i].1@),
            ),
            text: match self.text {
                Some(t) => Some(t@),
                None => None,
            },
        }
    }
}

impl DeepView for XmlNode {
    type V = XmlNodeView;

    open spec fn deep_view(&self) -> XmlNodeView {
        self@
    }
}

#[verifier::external_type_specification]
#[verifier::external_body]
pub struct ExXmlError(roxmltree::Error);

/// The nodes below and with the root element of the document that `xml` is, in document
/// order, as `roxmltree` reads it with document type definitions allowed; nothing where it
/// refuses `xml`.
pub uninterp spec fn xml_nodes(xml: Seq<char>) -> Option<Seq<XmlNodeView>>;

/// Parses `xml` with `roxmltree::Document::parse_with_options`, document type definitions
/// allowed, and hands out what `Node::descendants` lists for the root element: of each node
/// its `id`, the `id` of its `parent`, the local name of its `tag_name`, its `attributes` by
/// local name and value, and its `text`. The contract claims only that the outcome is a
/// function of the text, under the name `xml_nodes`.
#[verifier::external_body]
fn parse_nodes(xml: &str) -> (r: Result<Vec<XmlNode>, roxmltree::Error>)
    ensures
        match r {
            Ok(nodes) => xml_nodes(xml@) == Some(nodes.deep_view()),
            Err(_) => xml_nodes(xml@) is None,
        },
{
    let options = roxmltree::ParsingOptions { allow_dtd: true, ..Default::default() };
    let doc = roxmltree::Document::parse_with_options(xml, options)?;
    let nodes = doc.root_element().descendants();
    Ok(nodes.map(|n| XmlNode {
        id: n.id().get_usize(),
        parent: n.parent().map(|p| p.id().get_usize()),
        name: n.tag_name().name().to_string(),
        attributes: n.attributes().map(|a| (a.name().to_string(), a.value().to_string())).collect(),
        text: n.text().map(|t| t.to_string()),
    }).collect())
}

/// Why topics could not be read.
#[derive(Debug, Clone, Copy, PartialEq, Eq, Structural)]
pub enum XmlError {
    /// The text is no well-formed document.
    Malformed,
}

/// Reads the nodes of the document that `xml` is.
pub fn read_nodes(xml: &str) -> (r: Result<Vec<XmlNode>, XmlError>)
    ensures
        match r {
            Ok(nodes) => xml_nodes(xml@) == Some(nodes.deep_view()),
            Err(e) => xml_nodes(xml@) is None && e == XmlError::Malformed,
        },
{
    match parse_nodes(xml) {
        Ok(nodes) => Ok(nodes),
        Err(_) => Err(XmlError::Malformed),
    }
}

} // verus!
