//! The XML document as a flat tree.
//!
//! A document is a sequence of nodes in document order. The first node is the
//! document itself; every other node names its parent by position. A node's
//! children are the nodes that name it, in the order in which they stand.

use crate::error::AlsError;
use vstd::prelude::*;

verus! {

/// One attribute of an element: its local name and its value.
#[derive(Clone, Debug, PartialEq, Eq)]
pub struct XmlAttribute {
    pub name: String,
    pub value: String,
}

/// One node of a document.
#[derive(Clone, Debug, PartialEq, Eq)]
pub struct XmlNode {
    /// The position of the parent node; `None` for the document node.
    pub parent: Option<usize>,
    /// Whether the node is an element, not text, a comment or the like.
    pub element: bool,
    /// The local name of an element's tag; empty for other nodes.
    pub name: String,
    /// An element's attributes in the order in which they are written.
    pub attributes: Vec<XmlAttribute>,
}

/// An attribute as a mathematical value.
pub struct AttributeModel {
    pub name: Seq<char>,
    pub value: Seq<char>,
}

/// A node as a mathematical value.
pub struct NodeModel {
    pub parent: Option<usize>,
    pub element: bool,
    pub name: Seq<char>,
    pub attributes: Seq<AttributeModel>,
}

impl View for XmlAttribute {
    type V = AttributeModel;

    open spec fn view(&self) -> AttributeModel {
        AttributeModel { name: self.name@, value: self.value@ }
    }
}

impl View for XmlNode {
    type V = NodeModel;

    open spec fn view(&self) -> NodeModel {
        NodeModel {
            parent: self.parent,
            element: self.element,
            name: self.name@,
            attributes: self.attributes@.map_values(|a: XmlAttribute| a@),
        }
    }
}

/// The nodes of a document as mathematical values.
pub open spec fn document_model(nodes: Seq<XmlNode>) -> Seq<NodeModel> {
    nodes.map_values(|n: XmlNode| n@)
}

/// The value of the first attribute at or after position `i` whose local name is `name`.
pub open spec fn attribute_from(attributes: Seq<AttributeModel>, name: Seq<char>, i: int) -> Option<
    Seq<char>,
>
    decreases attributes.len() - i,
{
    if i < 0 || i >= attributes.len() {
        None
    } else if attributes[i].name == name {
        Some(attributes[i].value)
    } else {
        attribute_from(attributes, name, i + 1)
    }
}

/// The value of a node's first attribute whose local name is `name`.
pub open spec fn attribute_value(node: NodeModel, name: Seq<char>) -> Option<Seq<char>> {
    attribute_from(node.attributes, name, 0)
}

impl XmlNode {
    /// Finds the value of the node's first attribute whose local name is `name`.
    pub fn attribute(&self, name: &str) -> (r: Option<&String>)
        ensures
            match attribute_value(self@, name@) {
                Some(value) => r matches Some(s) && s@ == value,
                None => r is None,
            },
    {
        let name = name.to_owned();
        self.attribute_named(&name)
    }

    pub(crate) fn attribute_named(&self, name: &String) -> (r: Option<&String>)
        ensures
            match attribute_value(self@, name@) {
                Some(value) => r matches Some(s) && s@ == value,
                None => r is None,
            },
    {
        let mut i: usize = 0;
        while i < self.attributes.len()
            invariant
                i <= self.attributes@.len(),
                attribute_value(self@, name@) == attribute_from(self@.attributes, name@, i as int),
            decreases self.attributes@.len() - i,
        {
            if self.attributes[i].name == *name {
                return Some(&self.attributes[i].value);
            }
            i += 1;
        }
        None
    }
}

#[verifier::external_type_specification]
#[verifier::external_body]
pub struct ExXmlError(roxmltree::Error);

/// The nodes that a text parses to as an XML document; `None` where the text is
/// not well-formed.
pub uninterp spec fn xml_document(text: Seq<char>) -> Option<Seq<NodeModel>>;

/// Parses `text` with `roxmltree::Document::parse` and copies the document's
/// nodes out in document order, as `Document::descendants` yields them. Of each
/// node it copies the position of `Node::parent`, `Node::is_element`, the local
/// name of `Node::tag_name` and, of each of `Node::attributes`, the local name
/// and the value. The contract claims only that the outcome is a function of
/// the text, which it names [`xml_document`].
#[verifier::external_body]
fn parse_nodes(text: &str) -> (r: Result<Vec<XmlNode>, roxmltree::Error>)
    ensures
        r.is_ok() == xml_document(text@).is_some(),
        r matches Ok(nodes) ==> document_model(nodes@) == xml_document(text@).unwrap(),
{
    let doc = roxmltree::Document::parse(text)?;
    Ok(doc.descendants().map(|n| XmlNode {
        parent: n.parent().map(|p| p.id().get_usize()),
        element: n.is_element(),
        name: n.tag_name().name().to_string(),
        attributes: n.attributes().map(|a| XmlAttribute {
            name: a.name().to_string(),
            value: a.value().to_string(),
        }).collect(),
    }).collect())
}

/// Parses a text as an XML document.
pub fn parse_document(text: &str) -> (r: Result<Vec<XmlNode>, AlsError>)
    ensures
        match xml_document(text@) {
            Some(model) => r matches Ok(nodes) && document_model(nodes@) == model,
            None => r matches Err(e) && e == AlsError::Xml,
        },
{
    match parse_nodes(text) {
        Ok(nodes) => Ok(nodes),
        Err(_) => Err(AlsError::Xml),
    }
}

} // verus!
