//! A chaining builder for new elements.

use crate::document::Document;
use crate::element::{clone_node, Element};
use crate::node::Node;
use vstd::prelude::*;

verus! {

/// Builds a new element by chaining property calls; call `finish` to
/// create the record, or `push_to` to create it and attach it.
#[derive(Debug, Clone)]
pub struct ElementBuilder {
    /// Full qualified name of the element to create.
    pub full_name: String,
    /// Attributes gathered so far.
    pub attributes: Vec<(String, String)>,
    /// Namespace declarations gathered so far.
    pub namespace_decls: Vec<(String, String)>,
    /// Payload children gathered so far: text, comments, CDATA and
    /// processing instructions.
    pub content: Vec<Node>,
}

/// The builder's content holds payload nodes only, never element
/// references.
pub open spec fn payload_only(c: Seq<Node>) -> bool {
    forall|k: int| 0 <= k < c.len() ==> !((#[trigger] c[k]) is Element)
}

impl ElementBuilder {
    /// Starts a builder for an element with the given qualified name.
    pub fn new(full_name: String) -> (r: ElementBuilder)
        ensures
            r.full_name == full_name,
            r.attributes@.len() == 0,
            r.namespace_decls@.len() == 0,
            r.content@.len() == 0,
    {
        ElementBuilder {
            full_name,
            attributes: Vec::new(),
            namespace_decls: Vec::new(),
            content: Vec::new(),
        }
    }

    /// Starts a builder with room reserved for the given numbers of
    /// attributes, namespace declarations and children.
    pub fn new_with_capacities(
        full_name: String,
        attribute_capacity: usize,
        namespace_capacity: usize,
        content_capacity: usize,
    ) -> (r: ElementBuilder)
        ensures
            r.full_name == full_name,
            r.attributes@.len() == 0,
            r.namespace_decls@.len() == 0,
            r.content@.len() == 0,
    {
        ElementBuilder {
            full_name,
            attributes: Vec::with_capacity(attribute_capacity),
            namespace_decls: Vec::with_capacity(namespace_capacity),
            content: Vec::with_capacity(content_capacity),
        }
    }

    /// Replaces the namespace prefix of the element under construction,
    /// keeping its local name; an empty prefix removes the prefix.
    pub fn prefix(self, prefix: &str) -> (r: Self)
        ensures
            r.full_name@ == (if prefix@.len() == 0 {
                crate::element::local_name_of(self.full_name@)
            } else {
                prefix@ + seq![':'] + crate::element::local_name_of(self.full_name@)
            }),
            r.attributes == self.attributes,
            r.namespace_decls == self.namespace_decls,
            r.content == self.content,
    {
        let mut this = self;
        let full = this.full_name.clone();
        let parts = Element::separate_prefix_name(full.as_str());
        this.full_name = if prefix.is_empty() {
            String::from_str(parts.1)
        } else {
            let mut s = String::from_str(prefix);
            s.append(":");
            s.append(parts.1);
            proof {
                reveal_strlit(":");
                assert(":"@ =~= seq![':']);
            }
            s
        };
        this
    }

    /// Adds or replaces an attribute.
    pub fn attribute(self, name: String, value: String) -> (r: Self)
        ensures
            r.full_name == self.full_name,
            r.attributes@ == crate::element::assoc_put_spec(self.attributes@, name, value),
            r.namespace_decls == self.namespace_decls,
            r.content == self.content,
    {
        let mut this = self;
        crate::element::assoc_put(&mut this.attributes, name, value);
        this
    }

    /// Adds or replaces a namespace declaration; the default namespace
    /// is keyed by the empty string.
    pub fn namespace_decl(self, prefix: String, namespace: String) -> (r: Self)
        ensures
            r.full_name == self.full_name,
            r.attributes == self.attributes,
            r.namespace_decls@ == crate::element::assoc_put_spec(
                self.namespace_decls@,
                prefix,
                namespace,
            ),
            r.content == self.content,
    {
        let mut this = self;
        crate::element::assoc_put(&mut this.namespace_decls, prefix, namespace);
        this
    }

    /// Adds a text child.
    pub fn add_text(self, text: String) -> (r: Self)
        ensures
            r.full_name == self.full_name,
            r.attributes == self.attributes,
            r.namespace_decls == self.namespace_decls,
            r.content@ == self.content@.push(Node::Text(text)),
    {
        let mut this = self;
        this.content.push(Node::Text(text));
        this
    }

    /// Adds a comment child.
    pub fn add_comment(self, text: String) -> (r: Self)
        ensures
            r.full_name == self.full_name,
            r.attributes == self.attributes,
            r.namespace_decls == self.namespace_decls,
            r.content@ == self.content@.push(Node::Comment(text)),
    {
        let mut this = self;
        this.content.push(Node::Comment(text));
        this
    }

    /// Adds a CDATA child.
    pub fn add_cdata(self, text: String) -> (r: Self)
        ensures
            r.full_name == self.full_name,
            r.attributes == self.attributes,
            r.namespace_decls == self.namespace_decls,
            r.content@ == self.content@.push(Node::CData(text)),
    {
        let mut this = self;
        this.content.push(Node::CData(text));
        this
    }

    /// Adds a processing-instruction child.
    pub fn add_pi(self, text: String) -> (r: Self)
        ensures
            r.full_name == self.full_name,
            r.attributes == self.attributes,
            r.namespace_decls == self.namespace_decls,
            r.content@ == self.content@.push(Node::PI(text)),
    {
        let mut this = self;
        this.content.push(Node::PI(text));
        this
    }

    /// Creates the element in `doc` with everything gathered so far and
    /// returns its handle; the element has no parent yet.
    pub fn finish(self, doc: &mut Document) -> (elem: Element)
        requires
            old(doc).wf(),
            old(doc).store@.len() < usize::MAX,
            payload_only(self.content@),
        ensures
            final(doc).wf(),
            elem.id == old(doc).store@.len(),
            final(doc).store@.len() == old(doc).store@.len() + 1,
            forall|i: int|
                0 <= i < old(doc).store@.len() ==> final(doc).store@[i] == old(doc).store@[i],
            final(doc).store@.last().full_name == self.full_name,
            final(doc).store@.last().attributes == self.attributes,
            final(doc).store@.last().namespace_decls == self.namespace_decls,
            final(doc).store@.last().parent is None,
            final(doc).store@.last().children@ == self.content@,
            final(doc).counter == old(doc).counter + 1,
            final(doc).container == old(doc).container,
            final(doc).version == old(doc).version,
            final(doc).standalone == old(doc).standalone,
    {
        let ElementBuilder { full_name, attributes, namespace_decls, content } = self;
        let ghost gcontent = content;
        let elem = Element::with_data(doc, full_name, attributes, namespace_decls);
        let ghost mid = *doc;
        let count = content.len();
        let mut j: usize = 0;
        proof {
            assert(gcontent@.take(0) =~= Seq::<Node>::empty());
        }
        while j < count
            invariant
                doc.wf(),
                count == gcontent@.len(),
                content@ == gcontent@,
                j <= count,
                payload_only(gcontent@),
                (elem.id as int) == mid.store@.len() - 1,
                doc.store@.len() == mid.store@.len(),
                forall|i: int|
                    0 <= i < mid.store@.len() && i != elem.id as int ==> doc.store@[i]
                        == mid.store@[i],
                doc.store@[elem.id as int].full_name == mid.store@[elem.id as int].full_name,
                doc.store@[elem.id as int].attributes == mid.store@[elem.id as int].attributes,
                doc.store@[elem.id as int].namespace_decls == mid.store@[
                    elem.id as int].namespace_decls,
                doc.store@[elem.id as int].parent == mid.store@[elem.id as int].parent,
                doc.store@[elem.id as int].parent is None,
                doc.store@[elem.id as int].children@ == gcontent@.take(j as int),
                doc.counter == mid.counter,
                doc.container == mid.container,
                doc.version == mid.version,
                doc.standalone == mid.standalone,
            decreases count - j,
        {
            let node = clone_node(&content[j]);
            let ghost gnode = node;
            match elem.push_child(doc, node) {
                Ok(()) => {},
                Err(_) => {
                    proof {
                        assert(false);
                    }
                },
            }
            proof {
                assert(gcontent@.take(j as int).push(gnode) =~= gcontent@.take(j + 1));
            }
            j += 1;
        }
        proof {
            assert(gcontent@.take(count as int) =~= gcontent@);
        }
        elem
    }

    /// Creates the element and appends it to `parent`'s children.
    pub fn push_to(self, doc: &mut Document, parent: Element) -> (elem: Element)
        requires
            old(doc).wf(),
            old(doc).store@.len() < usize::MAX,
            payload_only(self.content@),
            parent.is_valid_in(old(doc)),
        ensures
            final(doc).wf(),
            elem.id == old(doc).store@.len(),
            final(doc).store@.len() == old(doc).store@.len() + 1,
            final(doc).store@.last().full_name == self.full_name,
            final(doc).store@.last().attributes == self.attributes,
            final(doc).store@.last().namespace_decls == self.namespace_decls,
            final(doc).store@.last().parent == Some(parent),
            final(doc).store@.last().children@ == self.content@,
            final(doc).store@[parent.id as int].children@ == old(
                doc,
            ).store@[parent.id as int].children@.push(Node::Element(elem)),
            final(doc).store@[parent.id as int].full_name == old(
                doc,
            ).store@[parent.id as int].full_name,
            final(doc).store@[parent.id as int].attributes == old(
                doc,
            ).store@[parent.id as int].attributes,
            final(doc).store@[parent.id as int].namespace_decls == old(
                doc,
            ).store@[parent.id as int].namespace_decls,
            final(doc).store@[parent.id as int].parent == old(
                doc,
            ).store@[parent.id as int].parent,
            forall|i: int|
                0 <= i < old(doc).store@.len() && i != parent.id as int ==> final(doc).store@[i]
                    == old(doc).store@[i],
            final(doc).container == old(doc).container,
            final(doc).version == old(doc).version,
            final(doc).standalone == old(doc).standalone,
    {
        let elem = self.finish(doc);
        match elem.push_to(doc, parent) {
            Ok(()) => {},
            Err(_) => {
                proof {
                    assert(false);
                }
            },
        }
        elem
    }

    /// Creates the element and appends it to the document's root nodes.
    pub fn push_to_root_node(self, doc: &mut Document) -> (elem: Element)
        requires
            old(doc).wf(),
            old(doc).store@.len() < usize::MAX,
            payload_only(self.content@),
        ensures
            final(doc).wf(),
            elem.id == old(doc).store@.len(),
            final(doc).store@.len() == old(doc).store@.len() + 1,
            final(doc).store@.last().full_name == self.full_name,
            final(doc).store@.last().attributes == self.attributes,
            final(doc).store@.last().namespace_decls == self.namespace_decls,
            final(doc).store@.last().parent == Some(old(doc).container),
            final(doc).store@.last().children@ == self.content@,
            final(doc).store@[0].children@ == old(doc).store@[0].children@.push(
                Node::Element(elem),
            ),
            final(doc).store@[0].full_name == old(doc).store@[0].full_name,
            final(doc).store@[0].attributes == old(doc).store@[0].attributes,
            final(doc).store@[0].namespace_decls == old(doc).store@[0].namespace_decls,
            final(doc).store@[0].parent == old(doc).store@[0].parent,
            forall|i: int|
                0 < i < old(doc).store@.len() ==> final(doc).store@[i] == old(doc).store@[i],
            final(doc).container == old(doc).container,
            final(doc).version == old(doc).version,
            final(doc).standalone == old(doc).standalone,
    {
        let elem = self.finish(doc);
        let container = doc.container();
        match elem.push_to(doc, container) {
            Ok(()) => {},
            Err(_) => {
                proof {
                    assert(false);
                }
            },
        }
        elem
    }
}

} // verus!
