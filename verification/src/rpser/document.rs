//! XML documents as text: what `xmltree` reads from bytes and writes for a tree.

use vstd::prelude::*;
use xmltree::XMLNode;

use crate::rpser::xml::{Element, ElementView, Node};

verus! {

#[verifier::external_type_specification]
#[verifier::external_body]
pub struct ExOutsideNode(xmltree::XMLNode);

#[verifier::external_type_specification]
#[verifier::external_body]
pub struct ExParseError(xmltree::ParseError);

/// The root element that `xmltree::Element::parse` reads from the bytes of a document, with
/// the attributes of each element in document order and without its namespace
/// declarations; `None` where it reports an error.
pub uninterp spec fn parsed_tree(bytes: Seq<u8>) -> Option<ElementView>;

/// The text that `xmltree::Element::write_with_config` writes for a tree as the root of a
/// new document, when empty elements are closed without a space before `/>`.
pub uninterp spec fn document_text(tree: ElementView) -> Seq<char>;

/// Copies nodes of `xmltree` into nodes of this library, field for field; the namespace
/// declarations of the elements are left behind.
#[verifier::external_body]
fn import_nodes(nodes: Vec<XMLNode>) -> Vec<Node> {
    nodes.into_iter().map(|node| match node {
        XMLNode::Element(e) => Node::Element(Element {
            prefix: e.prefix,
            namespace: e.namespace,
            name: e.name,
            attributes: e.attributes.into_iter().collect(),
            children: import_nodes(e.children),
        }),
        XMLNode::Comment(t) => Node::Comment(t),
        XMLNode::CData(t) => Node::CData(t),
        XMLNode::Text(t) => Node::Text(t),
        XMLNode::ProcessingInstruction(n, d) => Node::ProcessingInstruction(n, d),
    }).collect()
}

/// Copies nodes of this library into nodes of `xmltree`, field for field, without
/// namespace declarations.
#[verifier::external_body]
fn export_nodes(nodes: &Vec<Node>) -> Vec<XMLNode> {
    nodes.iter().map(|node| match node {
        Node::Element(e) => XMLNode::Element(xmltree::Element {
            prefix: e.prefix.clone(),
            namespace: e.namespace.clone(),
            namespaces: None,
            name: e.name.clone(),
            attributes: e.attributes.iter().cloned().collect(),
            children: export_nodes(&e.children),
        }),
        Node::Comment(t) => XMLNode::Comment(t.clone()),
        Node::CData(t) => XMLNode::CData(t.clone()),
        Node::Text(t) => XMLNode::Text(t.clone()),
        Node::ProcessingInstruction(n, d) => XMLNode::ProcessingInstruction(n.clone(), d.clone()),
    }).collect()
}

/// `xmltree::Element::parse` on the bytes of a document. The result is the root element
/// that the crate built, copied into this library's type, or the error that the crate
/// reports.
#[verifier::external_body]
fn read_tree(bytes: &[u8]) -> (r: Result<Element, xmltree::ParseError>)
    ensures
        match r {
            Ok(tree) => parsed_tree(bytes@) == Some(tree@),
            Err(_) => parsed_tree(bytes@) is None,
        },
{
    xmltree::Element::parse(bytes).map(|tree| Element {
        prefix: tree.prefix,
        namespace: tree.namespace,
        name: tree.name,
        attributes: tree.attributes.into_iter().collect(),
        children: import_nodes(tree.children),
    })
}

/// `xmltree::Element::write_with_config` on a copy of the tree, into memory. The result is
/// the text that the crate wrote.
#[verifier::external_body]
fn write_tree(element: &Element) -> (r: String)
    ensures
        r@ == document_text(element@),
{
    let tree = xmltree::Element {
        prefix: element.prefix.clone(),
        namespace: element.namespace.clone(),
        namespaces: None,
        name: element.name.clone(),
        attributes: element.attributes.iter().cloned().collect(),
        children: export_nodes(&element.children),
    };
    let mut out: Vec<u8> = Vec::new();
    let _ = tree.write_with_config(&mut out, xmltree::EmitterConfig::new().pad_self_closing(false));
    String::from_utf8_lossy(&out).into_owned()
}

/// Reads the root element of an XML document.
pub fn parse_document(bytes: &[u8]) -> (r: Result<Element, xmltree::ParseError>)
    ensures
        match r {
            Ok(tree) => parsed_tree(bytes@) == Some(tree@),
            Err(_) => parsed_tree(bytes@) is None,
        },
{
    read_tree(bytes)
}

impl Element {
    /// Writes the element as the root of an XML document.
    pub fn to_string(&self) -> (r: String)
        ensures
            r@ == document_text(self@),
    {
        write_tree(self)
    }
}

} // verus!
