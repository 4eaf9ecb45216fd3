//! The node union: an element reference or a plain payload.

use crate::document::Document;
use crate::element::{node_text_spec, Element};
use vstd::prelude::*;

verus! {

/// Represents an XML node.
#[derive(Debug, Clone)]
pub enum Node {
    /// XML element, referenced by handle.
    Element(Element),
    /// Character data between tags.
    Text(String),
    /// A comment.
    Comment(String),
    /// A CDATA section, stored verbatim.
    CData(String),
    /// A processing instruction.
    PI(String),
    /// A document type declaration.
    DocType(String),
}

impl Node {
    /// The element handle if this node is an element.
    pub fn as_element(&self) -> (r: Option<Element>)
        ensures
            (*self matches Node::Element(e) ==> r == Some(e)),
            (!(self is Element) ==> r is None),
    {
        match self {
            Node::Element(elem) => Some(*elem),
            _ => None,
        }
    }

    /// The node's text: its payload for text, CDATA and processing
    /// instructions, the concatenated subtree text for an element, and
    /// the empty string for comments and doctypes.
    pub fn text_content(&self, doc: &Document) -> (r: String)
        requires
            doc.wf(),
            (*self matches Node::Element(e) ==> e.is_valid_in(doc)),
        ensures
            r@ == node_text_spec(*doc, *self, doc.store@.len() as nat),
    {
        match self {
            Node::Element(e) => e.text_content(doc),
            Node::Text(t) => t.clone(),
            Node::CData(t) => t.clone(),
            Node::PI(t) => t.clone(),
            _ => String::new(),
        }
    }

    /// The node's own text payload where it carries one directly: text,
    /// CDATA and processing-instruction nodes.  Elements, comments and
    /// doctypes have none.
    pub fn possible_borrowed_text<'a>(&'a self) -> (r: Option<&'a str>)
        ensures
            (*self matches Node::Text(t) ==> (r matches Some(s) && s@ == t@)),
            (*self matches Node::CData(t) ==> (r matches Some(s) && s@ == t@)),
            (*self matches Node::PI(t) ==> (r matches Some(s) && s@ == t@)),
            (self is Comment || self is DocType || self is Element ==> r is None),
    {
        match self {
            Node::Text(t) => Some(t.as_str()),
            Node::CData(t) => Some(t.as_str()),
            Node::PI(t) => Some(t.as_str()),
            _ => None,
        }
    }

    /// Returns true if the node is a text node.
    pub fn is_text(&self) -> (r: bool)
        ensures
            r == (self is Text),
    {
        matches!(self, Node::Text(_))
    }

    /// Returns true if the node is a comment node.
    pub fn is_comment(&self) -> (r: bool)
        ensures
            r == (self is Comment),
    {
        matches!(self, Node::Comment(_))
    }

    /// Returns true if the node is a CDATA node.
    pub fn is_cdata(&self) -> (r: bool)
        ensures
            r == (self is CData),
    {
        matches!(self, Node::CData(_))
    }

    /// Returns true if the node is a processing-instruction node.
    pub fn is_pi(&self) -> (r: bool)
        ensures
            r == (self is PI),
    {
        matches!(self, Node::PI(_))
    }

    /// Returns true if the node is a document type declaration.
    pub fn is_doctype(&self) -> (r: bool)
        ensures
            r == (self is DocType),
    {
        matches!(self, Node::DocType(_))
    }

    /// Returns true if the node is an element.
    pub fn is_element(&self) -> (r: bool)
        ensures
            r == (self is Element),
    {
        matches!(self, Node::Element(_))
    }
}

} // verus!
