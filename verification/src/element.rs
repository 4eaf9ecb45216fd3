//! Element handles and their records.
//!
//! An [`Element`] is an opaque index into the owning [`Document`]'s store;
//! all data lookups and tree edits go through the document.

pub mod builder;

use crate::document::Document;
use crate::error::EditXMLError;
use crate::node::Node;
use crate::types::compare_str;
use vstd::prelude::*;

verus! {

/// The record behind an element handle: qualified name, attributes,
/// namespace declarations, the optional parent and the ordered children.
///
/// The attribute and namespace tables are association lists; lookups take
/// the first pair whose key matches, and updates replace that pair, so
/// the first match is also the only one that can be observed.
#[derive(Debug, Clone)]
pub struct ElementData {
    /// Full qualified name, possibly `prefix:name`.
    pub full_name: String,
    /// Attributes, `name => value`.
    pub attributes: Vec<(String, String)>,
    /// Namespace declarations of this element, `prefix => namespace`;
    /// the default namespace is keyed by the empty string.
    pub namespace_decls: Vec<(String, String)>,
    /// The parent, absent for the container and detached elements.
    pub parent: Option<Element>,
    /// Child nodes in document order.
    pub children: Vec<Node>,
}

/// An XML element: a copyable handle into its owning document's store.
/// Handles from one document must not be used with another.
#[derive(Debug, Clone, Copy, PartialEq, Eq, Structural)]
pub struct Element {
    /// Index into the owning document's store.
    pub id: usize,
}

/// The position of the first `:` in `s` at or after `from`.
pub open spec fn find_colon(s: Seq<char>, from: int) -> Option<int>
    decreases s.len() - from,
{
    if from >= s.len() {
        None
    } else if s[from] == ':' {
        Some(from)
    } else {
        find_colon(s, from + 1)
    }
}

/// The prefix part of a qualified name: what stands before the first `:`,
/// or empty if there is none.
pub open spec fn prefix_of(full: Seq<char>) -> Seq<char> {
    match find_colon(full, 0) {
        None => Seq::<char>::empty(),
        Some(j) => full.take(j),
    }
}

/// The local part of a qualified name: what stands after the first `:`,
/// or the whole name if there is none.
pub open spec fn local_name_of(full: Seq<char>) -> Seq<char> {
    match find_colon(full, 0) {
        None => full,
        Some(j) => full.skip(j + 1),
    }
}

proof fn lemma_find_colon_found(s: Seq<char>, from: int, j: int)
    requires
        0 <= from <= j < s.len(),
        forall|k: int| from <= k < j ==> s[k] != ':',
        s[j] == ':',
    ensures
        find_colon(s, from) == Some(j),
    decreases j - from,
{
    if from < j {
        lemma_find_colon_found(s, from + 1, j);
    }
}

proof fn lemma_find_colon_none(s: Seq<char>, from: int)
    requires
        0 <= from,
        forall|k: int| from <= k < s.len() ==> s[k] != ':',
    ensures
        find_colon(s, from) is None,
    decreases s.len() - from,
{
    if from < s.len() {
        lemma_find_colon_none(s, from + 1);
    }
}

/// The store `new_s` is `old_s` with the parent link of record `pi` set
/// to `new_parent`, the child list of record `ci` set to `new_children`,
/// and everything else unchanged.  Passing `-1` for `pi` means no parent
/// link changes.
pub open spec fn store_updated(
    old_s: Seq<ElementData>,
    new_s: Seq<ElementData>,
    pi: int,
    new_parent: Option<Element>,
    ci: int,
    new_children: Seq<Node>,
) -> bool {
    &&& new_s.len() == old_s.len()
    &&& forall|i: int|
        0 <= i < old_s.len() ==> ((#[trigger] new_s[i]).full_name == old_s[i].full_name
            && new_s[i].attributes == old_s[i].attributes && new_s[i].namespace_decls
            == old_s[i].namespace_decls)
    &&& forall|i: int|
        0 <= i < old_s.len() ==> (#[trigger] new_s[i]).parent == (if i == pi {
            new_parent
        } else {
            old_s[i].parent
        })
    &&& forall|i: int|
        0 <= i < old_s.len() ==> (#[trigger] new_s[i]).children@ == (if i == ci {
            new_children
        } else {
            old_s[i].children@
        })
    &&& forall|i: int| 0 <= i < old_s.len() && i != pi && i != ci ==> new_s[i] == old_s[i]
}

/// The counter, container handle, version and standalone flag of `b` are
/// those of `a`.
pub open spec fn doc_meta_same(a: Document, b: Document) -> bool {
    &&& b.counter == a.counter
    &&& b.container == a.container
    &&& b.version == a.version
    &&& b.standalone == a.standalone
}

/// Well-formedness is preserved by inserting a node into a child list,
/// with the node's parent link set when it is an element.
proof fn lemma_wf_after_insert(
    old_doc: Document,
    new_doc: Document,
    parent: Element,
    index: int,
    node: Node,
)
    requires
        old_doc.wf(),
        (parent.id as int) < old_doc.store@.len(),
        0 <= index <= old_doc.store@[parent.id as int].children@.len(),
        (match node {
            Node::Element(e) => (e.id as int) < old_doc.store@.len() && e.id != 0
                && old_doc.store@[e.id as int].parent is None && store_updated(
                old_doc.store@,
                new_doc.store@,
                e.id as int,
                Some(parent),
                parent.id as int,
                old_doc.store@[parent.id as int].children@.insert(index, node),
            ),
            _ => store_updated(
                old_doc.store@,
                new_doc.store@,
                -1,
                None,
                parent.id as int,
                old_doc.store@[parent.id as int].children@.insert(index, node),
            ),
        }),
        new_doc.counter == old_doc.counter,
        new_doc.container == old_doc.container,
    ensures
        new_doc.wf(),
{
    let n = old_doc.store@.len() as int;
    let oldc = old_doc.store@[parent.id as int].children@;
    let newc = oldc.insert(index, node);
    // Positions in the parent's new child list map back to old positions.
    assert(newc.len() == oldc.len() + 1);
    assert(forall|k: int| 0 <= k < index ==> newc[k] == oldc[k]);
    assert(forall|k: int| index < k < newc.len() ==> newc[k] == oldc[k - 1]);
    assert(newc[index] == node);
    assert(new_doc.store@[0].parent is None) by {
        match node {
            Node::Element(e) => {
                assert(new_doc.store@[0].parent == old_doc.store@[0].parent);
            },
            _ => {},
        }
    }
    // Any element child present somewhere in the old store keeps a parent.
    assert(new_doc.children_ok()) by {
        assert forall|p: int, k: int|
            0 <= p < n && 0 <= k < new_doc.store@[p].children@.len() implies #[trigger] new_doc.child_ok(
            p,
            k,
        ) by {
            if p == parent.id as int && k == index {
                match node {
                    Node::Element(e) => {
                        assert(new_doc.store@[e.id as int].parent == Some(parent));
                    },
                    _ => {},
                }
            } else {
                // This slot holds a child that was already present in the
                // old store, at position k or k - 1.
                let oldk = if p == parent.id as int && k > index {
                    k - 1
                } else {
                    k
                };
                assert(new_doc.store@[p].children@[k] == old_doc.store@[p].children@[oldk]);
                assert(old_doc.child_ok(p, oldk));
                match old_doc.store@[p].children@[oldk] {
                    Node::Element(e2) => {
                        match node {
                            Node::Element(e) => {
                                // The inserted element had no parent, so it
                                // cannot already be a child anywhere.
                                assert(e2.id != e.id) by {
                                    if e2.id == e.id {
                                        assert(old_doc.store@[e2.id as int].parent is Some);
                                        assert(old_doc.store@[e.id as int].parent is None);
                                    }
                                }
                                assert(new_doc.store@[e2.id as int].parent
                                    == old_doc.store@[e2.id as int].parent);
                            },
                            _ => {
                                assert(new_doc.store@[e2.id as int].parent
                                    == old_doc.store@[e2.id as int].parent);
                            },
                        }
                    },
                    _ => {},
                }
            }
        }
    }
    assert(new_doc.parents_ok()) by {
        assert forall|i: int| 0 <= i < n implies #[trigger] new_doc.parent_ok(i) by {
            let is_new_elem = match node {
                Node::Element(e) => i == e.id as int,
                _ => false,
            };
            if is_new_elem {
                assert(new_doc.store@[i].parent == Some(parent));
                assert(new_doc.store@[parent.id as int].children@[index] == Node::Element(
                    Element { id: i as usize },
                ));
            } else {
                assert(new_doc.store@[i].parent == old_doc.store@[i].parent);
                assert(old_doc.parent_ok(i));
                match old_doc.store@[i].parent {
                    Some(pe) => {
                        let k = choose|k: int|
                            0 <= k < old_doc.store@[pe.id as int].children@.len()
                                && old_doc.store@[pe.id as int].children@[k] == Node::Element(
                                Element { id: i as usize },
                            );
                        if pe.id == parent.id {
                            let newk = if k < index {
                                k
                            } else {
                                k + 1
                            };
                            assert(new_doc.store@[pe.id as int].children@[newk] == Node::Element(
                                Element { id: i as usize },
                            ));
                        } else {
                            assert(new_doc.store@[pe.id as int].children@[k] == Node::Element(
                                Element { id: i as usize },
                            ));
                        }
                    },
                    None => {},
                }
            }
        }
    }
    assert(new_doc.unique_children()) by {
        assert forall|p1: int, k1: int, p2: int, k2: int|
            0 <= p1 < n && 0 <= k1 < new_doc.store@[p1].children@.len() && 0 <= p2 < n && 0 <= k2
                < new_doc.store@[p2].children@.len() && #[trigger] new_doc.store@[p1].children@[k1]
                == #[trigger] new_doc.store@[p2].children@[k2]
                && new_doc.store@[p1].children@[k1] is Element implies p1 == p2 && k1 == k2 by {
            let new1 = p1 == parent.id as int && k1 == index;
            let new2 = p2 == parent.id as int && k2 == index;
            let oldk1 = if p1 == parent.id as int && k1 > index {
                k1 - 1
            } else {
                k1
            };
            let oldk2 = if p2 == parent.id as int && k2 > index {
                k2 - 1
            } else {
                k2
            };
            if new1 && new2 {
            } else if new1 && !new2 {
                // The other slot holds an old child equal to the new node;
                // an inserted element had no parent, so no old slot held it.
                assert(new_doc.store@[p2].children@[k2] == old_doc.store@[p2].children@[oldk2]);
                match node {
                    Node::Element(e) => {
                        assert(old_doc.child_ok(p2, oldk2));
                        assert(old_doc.store@[e.id as int].parent is Some);
                        assert(false);
                    },
                    _ => {
                        assert(false);
                    },
                }
            } else if !new1 && new2 {
                assert(new_doc.store@[p1].children@[k1] == old_doc.store@[p1].children@[oldk1]);
                match node {
                    Node::Element(e) => {
                        assert(old_doc.child_ok(p1, oldk1));
                        assert(old_doc.store@[e.id as int].parent is Some);
                        assert(false);
                    },
                    _ => {
                        assert(false);
                    },
                }
            } else {
                assert(new_doc.store@[p1].children@[k1] == old_doc.store@[p1].children@[oldk1]);
                assert(new_doc.store@[p2].children@[k2] == old_doc.store@[p2].children@[oldk2]);
                assert(old_doc.unique_children());
                assert(old_doc.store@[p1].children@[oldk1]
                    == old_doc.store@[p2].children@[oldk2]);
                assert(p1 == p2 && oldk1 == oldk2);
            }
        }
    }
}

/// Well-formedness is preserved by removing position `index` from a
/// child list, with the removed node's parent link cleared when it is an
/// element.
proof fn lemma_wf_after_remove(old_doc: Document, new_doc: Document, parent: Element, index: int)
    requires
        old_doc.wf(),
        (parent.id as int) < old_doc.store@.len(),
        0 <= index < old_doc.store@[parent.id as int].children@.len(),
        (match old_doc.store@[parent.id as int].children@[index] {
            Node::Element(e) => store_updated(
                old_doc.store@,
                new_doc.store@,
                e.id as int,
                None,
                parent.id as int,
                old_doc.store@[parent.id as int].children@.remove(index),
            ),
            _ => store_updated(
                old_doc.store@,
                new_doc.store@,
                -1,
                None,
                parent.id as int,
                old_doc.store@[parent.id as int].children@.remove(index),
            ),
        }),
        new_doc.counter == old_doc.counter,
        new_doc.container == old_doc.container,
    ensures
        new_doc.wf(),
{
    let n = old_doc.store@.len() as int;
    let oldc = old_doc.store@[parent.id as int].children@;
    let newc = oldc.remove(index);
    let removed = oldc[index];
    assert(newc.len() == oldc.len() - 1);
    assert(forall|k: int| 0 <= k < index ==> newc[k] == oldc[k]);
    assert(forall|k: int| index <= k < newc.len() ==> newc[k] == oldc[k + 1]);
    assert(old_doc.child_ok(parent.id as int, index));
    assert(new_doc.store@[0].parent is None) by {
        match removed {
            Node::Element(e) => {
                if e.id == 0 {
                } else {
                    assert(new_doc.store@[0].parent == old_doc.store@[0].parent);
                }
            },
            _ => {},
        }
    }
    assert(new_doc.children_ok()) by {
        assert forall|p: int, k: int|
            0 <= p < n && 0 <= k < new_doc.store@[p].children@.len() implies #[trigger] new_doc.child_ok(
            p,
            k,
        ) by {
            let oldk = if p == parent.id as int && k >= index {
                k + 1
            } else {
                k
            };
            assert(new_doc.store@[p].children@[k] == old_doc.store@[p].children@[oldk]);
            assert(old_doc.child_ok(p, oldk));
            match old_doc.store@[p].children@[oldk] {
                Node::Element(e2) => {
                    match removed {
                        Node::Element(e) => {
                            // The slot (p, oldk) differs from the removed
                            // slot, so by uniqueness its element differs.
                            assert(e2.id != e.id) by {
                                if e2.id == e.id {
                                    assert(old_doc.store@[p].children@[oldk]
                                        == old_doc.store@[parent.id as int].children@[index]);
                                    assert(old_doc.unique_children());
                                    assert(p == parent.id as int && oldk == index);
                                    assert(false);
                                }
                            }
                            assert(new_doc.store@[e2.id as int].parent
                                == old_doc.store@[e2.id as int].parent);
                        },
                        _ => {
                            assert(new_doc.store@[e2.id as int].parent
                                == old_doc.store@[e2.id as int].parent);
                        },
                    }
                },
                _ => {},
            }
        }
    }
    assert(new_doc.parents_ok()) by {
        assert forall|i: int| 0 <= i < n implies #[trigger] new_doc.parent_ok(i) by {
            let is_removed_elem = match removed {
                Node::Element(e) => i == e.id as int,
                _ => false,
            };
            if is_removed_elem {
                assert(new_doc.store@[i].parent is None);
            } else {
                assert(new_doc.store@[i].parent == old_doc.store@[i].parent);
                assert(old_doc.parent_ok(i));
                match old_doc.store@[i].parent {
                    Some(pe) => {
                        let k = choose|k: int|
                            0 <= k < old_doc.store@[pe.id as int].children@.len()
                                && old_doc.store@[pe.id as int].children@[k] == Node::Element(
                                Element { id: i as usize },
                            );
                        if pe.id == parent.id {
                            // The witness is not the removed slot, because
                            // the removed element is not record i.
                            assert(k != index) by {
                                if k == index {
                                    assert(removed == Node::Element(Element { id: i as usize }));
                                }
                            }
                            let newk = if k < index {
                                k
                            } else {
                                k - 1
                            };
                            assert(new_doc.store@[pe.id as int].children@[newk] == Node::Element(
                                Element { id: i as usize },
                            ));
                        } else {
                            assert(new_doc.store@[pe.id as int].children@[k] == Node::Element(
                                Element { id: i as usize },
                            ));
                        }
                    },
                    None => {},
                }
            }
        }
    }
    assert(new_doc.unique_children()) by {
        assert forall|p1: int, k1: int, p2: int, k2: int|
            0 <= p1 < n && 0 <= k1 < new_doc.store@[p1].children@.len() && 0 <= p2 < n && 0 <= k2
                < new_doc.store@[p2].children@.len() && #[trigger] new_doc.store@[p1].children@[k1]
                == #[trigger] new_doc.store@[p2].children@[k2]
                && new_doc.store@[p1].children@[k1] is Element implies p1 == p2 && k1 == k2 by {
            let oldk1 = if p1 == parent.id as int && k1 >= index {
                k1 + 1
            } else {
                k1
            };
            let oldk2 = if p2 == parent.id as int && k2 >= index {
                k2 + 1
            } else {
                k2
            };
            assert(new_doc.store@[p1].children@[k1] == old_doc.store@[p1].children@[oldk1]);
            assert(new_doc.store@[p2].children@[k2] == old_doc.store@[p2].children@[oldk2]);
            assert(old_doc.unique_children());
            assert(old_doc.store@[p1].children@[oldk1] == old_doc.store@[p2].children@[oldk2]);
            assert(p1 == p2 && oldk1 == oldk2);
        }
    }
}

impl Element {
    /// Returns true if this handle is a valid index into `doc`'s store.
    pub open spec fn is_valid_in(&self, doc: &Document) -> bool {
        self.id < doc.store@.len()
    }

    /// Returns true if this element is the container.
    ///
    /// The container is the invisible, permanently parent-less element
    /// behind handle 0 that owns the document's root nodes.
    pub fn is_container(&self) -> (r: bool)
        ensures
            r == (self.id == 0),
    {
        self.id == 0
    }

    /// Starts a builder chain for a new element with the given name;
    /// finish it with `finish` or `push_to`.
    pub fn build(full_name: String) -> (r: builder::ElementBuilder)
        ensures
            r.full_name == full_name,
            r.attributes@.len() == 0,
            r.namespace_decls@.len() == 0,
            r.content@.len() == 0,
    {
        builder::ElementBuilder::new(full_name)
    }

    /// Equivalent to `Node::Element(*self)`.
    pub fn as_node(&self) -> (r: Node)
        ensures
            r == Node::Element(*self),
    {
        Node::Element(*self)
    }

    /// Splits a qualified name on its first `:`, returning prefix and
    /// local name; the prefix is empty if there is no `:`.
    pub fn separate_prefix_name<'a>(full_name: &'a str) -> (r: (&'a str, &'a str))
        ensures
            r.0@ == prefix_of(full_name@),
            r.1@ == local_name_of(full_name@),
    {
        let n = full_name.unicode_len();
        let mut idx: usize = 0;
        while idx < n
            invariant
                idx <= n,
                n == full_name@.len(),
                forall|k: int| 0 <= k < idx ==> full_name@[k] != ':',
            decreases n - idx,
        {
            if full_name.get_char(idx) == ':' {
                proof {
                    lemma_find_colon_found(full_name@, 0, idx as int);
                }
                let prefix = full_name.substring_char(0, idx);
                let name = full_name.substring_char(idx + 1, n);
                proof {
                    assert(prefix@ =~= full_name@.take(idx as int));
                    assert(name@ =~= full_name@.skip(idx + 1));
                }
                return (prefix, name);
            }
            idx += 1;
        }
        proof {
            lemma_find_colon_none(full_name@, 0);
            reveal_strlit("");
        }
        ("", full_name)
    }
}

/// Exactly what `push_child` does: the full relation between the
/// document before and after, the node pushed, and the result.  A node
/// wrapping the container is rejected, a node wrapping an element that
/// already has a parent is rejected, and a rejected call changes
/// nothing; otherwise the node is appended to the parent's children and,
/// for an element, its parent link is set.
pub open spec fn push_child_behavior(
    pre: Document,
    parent: Element,
    node: Node,
    post: Document,
    r: Result<(), EditXMLError>,
) -> bool {
    &&& post.wf()
    &&& doc_meta_same(pre, post)
    &&& (match r {
        Ok(()) => (match node {
            Node::Element(e) => e.id != 0 && pre.store@[e.id as int].parent is None
                && store_updated(
                pre.store@,
                post.store@,
                e.id as int,
                Some(parent),
                parent.id as int,
                pre.store@[parent.id as int].children@.push(node),
            ),
            _ => store_updated(
                pre.store@,
                post.store@,
                -1,
                None,
                parent.id as int,
                pre.store@[parent.id as int].children@.push(node),
            ),
        }),
        Err(err) => post == pre && (match err {
            EditXMLError::ContainerCannotMove => node matches Node::Element(el) && el.id == 0,
            EditXMLError::HasAParent => (node matches Node::Element(el) && el.id != 0
                && pre.store@[el.id as int].parent is Some),
            _ => false,
        }),
    })
}

/// Exactly what `insert_child` does: as `push_child`, but the node is
/// inserted at the given position.
pub open spec fn insert_child_behavior(
    pre: Document,
    parent: Element,
    index: int,
    node: Node,
    post: Document,
    r: Result<(), EditXMLError>,
) -> bool {
    &&& post.wf()
    &&& doc_meta_same(pre, post)
    &&& (match r {
        Ok(()) => (match node {
            Node::Element(e) => e.id != 0 && pre.store@[e.id as int].parent is None
                && store_updated(
                pre.store@,
                post.store@,
                e.id as int,
                Some(parent),
                parent.id as int,
                pre.store@[parent.id as int].children@.insert(index, node),
            ),
            _ => store_updated(
                pre.store@,
                post.store@,
                -1,
                None,
                parent.id as int,
                pre.store@[parent.id as int].children@.insert(index, node),
            ),
        }),
        Err(err) => post == pre && (match err {
            EditXMLError::ContainerCannotMove => node matches Node::Element(el) && el.id == 0,
            EditXMLError::HasAParent => (node matches Node::Element(el) && el.id != 0
                && pre.store@[el.id as int].parent is Some),
            _ => false,
        }),
    })
}

/// Exactly what `detach` does: detaching the container is rejected and
/// changes nothing; a parent-less element is left alone; otherwise the
/// element leaves its parent's child list and its parent link is
/// cleared.
pub open spec fn detach_behavior(
    pre: Document,
    elem: Element,
    post: Document,
    r: Result<(), EditXMLError>,
) -> bool {
    &&& post.wf()
    &&& doc_meta_same(pre, post)
    &&& (match r {
        Ok(()) => elem.id != 0 && (match pre.store@[elem.id as int].parent {
            None => post == pre,
            Some(pe) => exists|k: int|
                0 <= k < pre.store@[pe.id as int].children@.len()
                    && pre.store@[pe.id as int].children@[k] == Node::Element(elem)
                    && store_updated(
                    pre.store@,
                    post.store@,
                    elem.id as int,
                    None,
                    pe.id as int,
                    pre.store@[pe.id as int].children@.remove(k),
                ),
        }),
        Err(err) => post == pre && err is ContainerCannotMove && elem.id == 0,
    })
}

/// Tree edits.  Each operation touches at most the parent's child list
/// and the child's parent link, keeps them consistent, and rejects the
/// two illegal moves: giving the container a parent, and giving an
/// element a second parent.
///
/// Edits beyond these operations — reordering a child list wholesale,
/// or rewriting an attribute table in place — go through the public
/// record fields and carry no contract; the well-formedness predicate
/// is what such a caller owes the next verified call.
impl Element {
    /// Appends `node` to this element's children.
    ///
    /// Fails with `ContainerCannotMove` if `node` wraps the container and
    /// with `HasAParent` if it wraps an element that already has a
    /// parent; a failed call leaves the document unchanged.
    pub fn push_child(&self, doc: &mut Document, node: Node) -> (r: Result<(), EditXMLError>)
        requires
            old(doc).wf(),
            self.is_valid_in(old(doc)),
            (node matches Node::Element(e) ==> e.is_valid_in(old(doc))),
        ensures
            push_child_behavior(*old(doc), *self, node, *final(doc), r),
    {
        match node.as_element() {
            Some(elem) => {
                if elem.is_container() {
                    return Err(EditXMLError::ContainerCannotMove);
                }
                let has_parent = doc.store[elem.id].parent.is_some();
                if has_parent {
                    return Err(EditXMLError::HasAParent);
                }
                let rec = &mut doc.store[elem.id];
                rec.parent = Some(*self);
            },
            None => {},
        }
        let ghost gnode = node;
        let rec2 = &mut doc.store[self.id];
        rec2.children.push(node);
        proof {
            let oldc = old(doc).store@[self.id as int].children@;
            assert(oldc.insert(oldc.len() as int, gnode) =~= oldc.push(gnode));
            match gnode {
                Node::Element(e) => {
                    assert(store_updated(
                        old(doc).store@,
                        doc.store@,
                        e.id as int,
                        Some(*self),
                        self.id as int,
                        oldc.push(gnode),
                    ));
                },
                _ => {
                    assert(store_updated(
                        old(doc).store@,
                        doc.store@,
                        -1,
                        None,
                        self.id as int,
                        oldc.push(gnode),
                    ));
                },
            }
            lemma_wf_after_insert(*old(doc), *doc, *self, oldc.len() as int, gnode);
        }
        Ok(())
    }

    /// Appends this element to `parent`'s children; the same as calling
    /// `push_child` on the parent with this element as the node.
    pub fn push_to(&self, doc: &mut Document, parent: Element) -> (r: Result<(), EditXMLError>)
        requires
            old(doc).wf(),
            self.is_valid_in(old(doc)),
            parent.is_valid_in(old(doc)),
        ensures
            final(doc).wf(),
            doc_meta_same(*old(doc), *final(doc)),
            (match r {
                Ok(()) => self.id != 0 && old(doc).store@[self.id as int].parent is None
                    && store_updated(
                    old(doc).store@,
                    final(doc).store@,
                    self.id as int,
                    Some(parent),
                    parent.id as int,
                    old(doc).store@[parent.id as int].children@.push(Node::Element(*self)),
                ),
                Err(err) => *final(doc) == *old(doc) && (match err {
                    EditXMLError::ContainerCannotMove => self.id == 0,
                    EditXMLError::HasAParent => self.id != 0 && old(
                        doc,
                    ).store@[self.id as int].parent is Some,
                    _ => false,
                }),
            }),
    {
        parent.push_child(doc, self.as_node())
    }

    /// Inserts `node` at `index` in this element's children, shifting the
    /// rest to the right.  The index must be at most the child count;
    /// the same moves are rejected as in `push_child`.
    pub fn insert_child(&self, doc: &mut Document, index: usize, node: Node) -> (r: Result<
        (),
        EditXMLError,
    >)
        requires
            old(doc).wf(),
            self.is_valid_in(old(doc)),
            (node matches Node::Element(e) ==> e.is_valid_in(old(doc))),
            index <= old(doc).store@[self.id as int].children@.len(),
        ensures
            insert_child_behavior(*old(doc), *self, index as int, node, *final(doc), r),
    {
        match node.as_element() {
            Some(elem) => {
                if elem.is_container() {
                    return Err(EditXMLError::ContainerCannotMove);
                }
                let has_parent = doc.store[elem.id].parent.is_some();
                if has_parent {
                    return Err(EditXMLError::HasAParent);
                }
                let rec = &mut doc.store[elem.id];
                rec.parent = Some(*self);
            },
            None => {},
        }
        let ghost gnode = node;
        let rec2 = &mut doc.store[self.id];
        rec2.children.insert(index, node);
        proof {
            let oldc = old(doc).store@[self.id as int].children@;
            match gnode {
                Node::Element(e) => {
                    assert(store_updated(
                        old(doc).store@,
                        doc.store@,
                        e.id as int,
                        Some(*self),
                        self.id as int,
                        oldc.insert(index as int, gnode),
                    ));
                },
                _ => {
                    assert(store_updated(
                        old(doc).store@,
                        doc.store@,
                        -1,
                        None,
                        self.id as int,
                        oldc.insert(index as int, gnode),
                    ));
                },
            }
            lemma_wf_after_insert(*old(doc), *doc, *self, index as int, gnode);
        }
        Ok(())
    }

    /// Removes and returns the child at `index`, clearing its parent link
    /// if it is an element.  The index must be within the child count.
    pub fn remove_child(&self, doc: &mut Document, index: usize) -> (r: Node)
        requires
            old(doc).wf(),
            self.is_valid_in(old(doc)),
            index < old(doc).store@[self.id as int].children@.len(),
        ensures
            final(doc).wf(),
            doc_meta_same(*old(doc), *final(doc)),
            r == old(doc).store@[self.id as int].children@[index as int],
            (match r {
                Node::Element(e) => store_updated(
                    old(doc).store@,
                    final(doc).store@,
                    e.id as int,
                    None,
                    self.id as int,
                    old(doc).store@[self.id as int].children@.remove(index as int),
                ),
                _ => store_updated(
                    old(doc).store@,
                    final(doc).store@,
                    -1,
                    None,
                    self.id as int,
                    old(doc).store@[self.id as int].children@.remove(index as int),
                ),
            }),
    {
        proof {
            assert(old(doc).child_ok(self.id as int, index as int));
        }
        let rec = &mut doc.store[self.id];
        let node = rec.children.remove(index);
        match node.as_element() {
            Some(elem) => {
                let rec2 = &mut doc.store[elem.id];
                rec2.parent = None;
            },
            None => {},
        }
        proof {
            lemma_wf_after_remove(*old(doc), *doc, *self, index as int);
        }
        node
    }

    /// Removes and returns the last child, if any, clearing its parent
    /// link if it is an element.
    pub fn pop_child(&self, doc: &mut Document) -> (r: Option<Node>)
        requires
            old(doc).wf(),
            self.is_valid_in(old(doc)),
        ensures
            final(doc).wf(),
            doc_meta_same(*old(doc), *final(doc)),
            (old(doc).store@[self.id as int].children@.len() == 0 ==> r is None && *final(doc)
                == *old(doc)),
            (old(doc).store@[self.id as int].children@.len() > 0 ==> (r matches Some(node) && node
                == old(doc).store@[self.id as int].children@.last() && (match node {
                Node::Element(e) => store_updated(
                    old(doc).store@,
                    final(doc).store@,
                    e.id as int,
                    None,
                    self.id as int,
                    old(doc).store@[self.id as int].children@.drop_last(),
                ),
                _ => store_updated(
                    old(doc).store@,
                    final(doc).store@,
                    -1,
                    None,
                    self.id as int,
                    old(doc).store@[self.id as int].children@.drop_last(),
                ),
            }))),
    {
        let len = doc.store[self.id].children.len();
        if len == 0 {
            return None;
        }
        let node = self.remove_child(doc, len - 1);
        proof {
            let oldc = old(doc).store@[self.id as int].children@;
            assert(oldc.remove(oldc.len() - 1) =~= oldc.drop_last());
        }
        Some(node)
    }

    /// Removes and returns all children, clearing the parent link of
    /// every element among them.
    pub fn clear_children(&self, doc: &mut Document) -> (r: Vec<Node>)
        requires
            old(doc).wf(),
            self.is_valid_in(old(doc)),
        ensures
            final(doc).wf(),
            doc_meta_same(*old(doc), *final(doc)),
            r@ == old(doc).store@[self.id as int].children@,
            final(doc).store@.len() == old(doc).store@.len(),
            forall|i: int|
                0 <= i < old(doc).store@.len() ==> ((#[trigger] final(doc).store@[i]).full_name
                    == old(doc).store@[i].full_name && final(doc).store@[i].attributes == old(
                    doc,
                ).store@[i].attributes && final(doc).store@[i].namespace_decls == old(
                    doc,
                ).store@[i].namespace_decls),
            forall|i: int|
                0 <= i < old(doc).store@.len() ==> (#[trigger] final(doc).store@[i]).children@
                    == (if i == self.id as int {
                    Seq::<Node>::empty()
                } else {
                    old(doc).store@[i].children@
                }),
            forall|i: int|
                0 <= i < old(doc).store@.len() ==> (#[trigger] final(doc).store@[i]).parent == (
                if elem_in_children(old(doc).store@[self.id as int].children@, i) {
                    None
                } else {
                    old(doc).store@[i].parent
                }),
    {
        let ghost oldc = old(doc).store@[self.id as int].children@;
        let count = doc.store[self.id].children.len();
        let mut removed: Vec<Node> = Vec::with_capacity(count);
        let mut j: usize = 0;
        proof {
            assert(oldc.take(0) =~= Seq::<Node>::empty());
            assert(oldc.skip(0) =~= oldc);
        }
        while j < count
            invariant
                j <= count,
                doc.wf(),
                doc_meta_same(*old(doc), *doc),
                (self.id as int) < old(doc).store@.len(),
                doc.store@.len() == old(doc).store@.len(),
                count == oldc.len(),
                oldc == old(doc).store@[self.id as int].children@,
                removed@ == oldc.take(j as int),
                forall|i: int|
                    0 <= i < old(doc).store@.len() ==> ((#[trigger] doc.store@[i]).full_name == old(
                        doc,
                    ).store@[i].full_name && doc.store@[i].attributes == old(
                        doc,
                    ).store@[i].attributes && doc.store@[i].namespace_decls == old(
                        doc,
                    ).store@[i].namespace_decls),
                forall|i: int|
                    0 <= i < old(doc).store@.len() ==> (#[trigger] doc.store@[i]).children@ == (
                    if i == self.id as int {
                        oldc.skip(j as int)
                    } else {
                        old(doc).store@[i].children@
                    }),
                forall|i: int|
                    0 <= i < old(doc).store@.len() ==> (#[trigger] doc.store@[i]).parent == (
                    if elem_in_children(oldc.take(j as int), i) {
                        None
                    } else {
                        old(doc).store@[i].parent
                    }),
            decreases count - j,
        {
            let ghost pre = *doc;
            let child = self.remove_child(doc, 0);
            removed.push(child);
            proof {
                assert(child == oldc.skip(j as int)[0]);
                assert(oldc.skip(j as int)[0] == oldc[j as int]);
                assert(oldc.skip(j as int).remove(0) =~= oldc.skip(j + 1));
                assert(removed@ =~= oldc.take(j + 1));
                assert forall|i: int| 0 <= i < old(doc).store@.len() implies (
                #[trigger] doc.store@[i]).parent == (if elem_in_children(oldc.take(j + 1), i) {
                    None
                } else {
                    old(doc).store@[i].parent
                }) by {
                    if elem_in_children(oldc.take(j + 1), i) {
                        let k = choose|k: int|
                            0 <= k < oldc.take(j + 1).len() && #[trigger] oldc.take(j + 1)[k]
                                == Node::Element(Element { id: i as usize });
                        if k < j as int {
                            assert(elem_in_children(oldc.take(j as int), i)) by {
                                assert(oldc.take(j as int)[k] == Node::Element(
                                    Element { id: i as usize },
                                ));
                            }
                            assert(pre.store@[i].parent is None);
                        } else {
                            assert(oldc[j as int] == Node::Element(Element { id: i as usize }));
                        }
                    } else {
                        assert(!elem_in_children(oldc.take(j as int), i)) by {
                            if elem_in_children(oldc.take(j as int), i) {
                                let k = choose|k: int|
                                    0 <= k < oldc.take(j as int).len() && #[trigger] oldc.take(
                                        j as int,
                                    )[k] == Node::Element(Element { id: i as usize });
                                assert(oldc.take(j + 1)[k] == Node::Element(
                                    Element { id: i as usize },
                                ));
                            }
                        }
                        assert(match oldc[j as int] {
                            Node::Element(e) => e.id as int != i,
                            _ => true,
                        }) by {
                            if oldc[j as int] == Node::Element(Element { id: i as usize }) {
                                assert(oldc.take(j + 1)[j as int] == Node::Element(
                                    Element { id: i as usize },
                                ));
                            }
                        }
                    }
                }
            }
            j += 1;
        }
        proof {
            assert(oldc.take(count as int) =~= oldc);
            assert(oldc.skip(count as int) =~= Seq::<Node>::empty());
        }
        removed
    }

    /// Removes this element from its parent's child list and clears its
    /// parent link.  Detaching the container fails; detaching an element
    /// that has no parent succeeds and changes nothing.
    pub fn detach(&self, doc: &mut Document) -> (r: Result<(), EditXMLError>)
        requires
            old(doc).wf(),
            self.is_valid_in(old(doc)),
        ensures
            detach_behavior(*old(doc), *self, *final(doc), r),
    {
        if self.is_container() {
            return Err(EditXMLError::ContainerCannotMove);
        }
        let parent_opt = doc.store[self.id].parent;
        match parent_opt {
            None => Ok(()),
            Some(pe) => {
                proof {
                    assert(old(doc).parent_ok(self.id as int));
                }
                let plen = doc.store[pe.id].children.len();
                let mut k: usize = 0;
                let mut pos: usize = 0;
                let mut found = false;
                while k < plen
                    invariant
                        k <= plen,
                        (pe.id as int) < doc.store@.len(),
                        plen == doc.store@[pe.id as int].children@.len(),
                        !found ==> forall|m: int|
                            0 <= m < k ==> doc.store@[pe.id as int].children@[m] != Node::Element(
                                *self,
                            ),
                        found ==> (pos < plen && doc.store@[pe.id as int].children@[pos as int]
                            == Node::Element(*self)),
                    decreases plen - k,
                {
                    if !found {
                        let is_self = match doc.store[pe.id].children[k].as_element() {
                            Some(e2) => e2.id == self.id,
                            None => false,
                        };
                        if is_self {
                            found = true;
                            pos = k;
                        }
                    }
                    k += 1;
                }
                if !found {
                    proof {
                        let kk = choose|kk: int|
                            0 <= kk < old(doc).store@[pe.id as int].children@.len() && old(
                                doc,
                            ).store@[pe.id as int].children@[kk] == Node::Element(
                                Element { id: self.id },
                            );
                        assert(doc.store@[pe.id as int].children@[kk] == Node::Element(*self));
                        assert(false);
                    }
                    return Ok(());
                }
                pe.remove_child(doc, pos);
                Ok(())
            },
        }
    }
}

/// The namespace URI a prefix resolves to at record `i`: the first
/// declaration found walking from `i` up through parent links, with the
/// number of steps bounded by `fuel`.
pub open spec fn resolve_prefix_spec(doc: Document, i: int, prefix: Seq<char>, fuel: nat) -> Option<
    Seq<char>,
>
    decreases fuel,
{
    if fuel == 0 {
        None
    } else {
        match assoc_get(doc.store@[i].namespace_decls@, prefix) {
            Some(v) => Some(v),
            None => match doc.store@[i].parent {
                Some(pe) => resolve_prefix_spec(doc, pe.id as int, prefix, (fuel - 1) as nat),
                None => None,
            },
        }
    }
}

/// The concatenated text of the children of record `i` from position `k`
/// on: text, CDATA and processing-instruction payloads, and the text of
/// element children down to depth `fuel`.
pub open spec fn children_text_spec(doc: Document, i: int, k: int, fuel: nat) -> Seq<char>
    decreases fuel, doc.store@[i].children@.len() - k,
{
    if k < 0 || k >= doc.store@[i].children@.len() {
        Seq::<char>::empty()
    } else {
        (match doc.store@[i].children@[k] {
            Node::Text(t) => t@,
            Node::CData(t) => t@,
            Node::PI(t) => t@,
            Node::Element(e) => if fuel > 0 && (e.id as int) < doc.store@.len() {
                children_text_spec(doc, e.id as int, 0, (fuel - 1) as nat)
            } else {
                Seq::<char>::empty()
            },
            _ => Seq::<char>::empty(),
        }) + children_text_spec(doc, i, k + 1, fuel)
    }
}

/// The text of one node: its payload for text, CDATA and processing
/// instructions, the concatenated child text for an element, and nothing
/// for comments and doctypes.
pub open spec fn node_text_spec(doc: Document, node: Node, fuel: nat) -> Seq<char> {
    match node {
        Node::Text(t) => t@,
        Node::CData(t) => t@,
        Node::PI(t) => t@,
        Node::Element(e) => if (e.id as int) < doc.store@.len() {
            children_text_spec(doc, e.id as int, 0, fuel)
        } else {
            Seq::<char>::empty()
        },
        _ => Seq::<char>::empty(),
    }
}

/// The element children of a node list, in order.
pub open spec fn child_elements_spec(c: Seq<Node>, from: int) -> Seq<Element>
    decreases c.len() - from,
{
    if from < 0 || from >= c.len() {
        Seq::<Element>::empty()
    } else {
        (match c[from] {
            Node::Element(e) => seq![e],
            _ => Seq::<Element>::empty(),
        }) + child_elements_spec(c, from + 1)
    }
}

/// The first element child of `c` whose local name reads `name`.
pub open spec fn find_by_name_spec(doc: Document, c: Seq<Node>, from: int, name: Seq<char>) -> Option<
    Element,
>
    decreases c.len() - from,
{
    if from < 0 || from >= c.len() {
        None
    } else {
        match c[from] {
            Node::Element(e) => if (e.id as int) < doc.store@.len() && local_name_of(
                doc.store@[e.id as int].full_name@,
            ) == name {
                Some(e)
            } else {
                find_by_name_spec(doc, c, from + 1, name)
            },
            _ => find_by_name_spec(doc, c, from + 1, name),
        }
    }
}

/// All element children of `c` whose local name reads `name`, in order.
pub open spec fn find_all_spec(doc: Document, c: Seq<Node>, from: int, name: Seq<char>) -> Seq<
    Element,
>
    decreases c.len() - from,
{
    if from < 0 || from >= c.len() {
        Seq::<Element>::empty()
    } else {
        (match c[from] {
            Node::Element(e) => if (e.id as int) < doc.store@.len() && local_name_of(
                doc.store@[e.id as int].full_name@,
            ) == name {
                seq![e]
            } else {
                Seq::<Element>::empty()
            },
            _ => Seq::<Element>::empty(),
        }) + find_all_spec(doc, c, from + 1, name)
    }
}

/// The children of record `i` from position `k` on, in preorder: each
/// node followed by its own children when it is an element, descending
/// at most `fuel` levels.
pub open spec fn preorder_nodes_spec(doc: Document, i: int, k: int, fuel: nat) -> Seq<Node>
    decreases fuel, doc.store@[i].children@.len() - k,
{
    if k < 0 || k >= doc.store@[i].children@.len() {
        Seq::<Node>::empty()
    } else {
        seq![doc.store@[i].children@[k]] + (match doc.store@[i].children@[k] {
            Node::Element(e) => if fuel > 0 && (e.id as int) < doc.store@.len() {
                preorder_nodes_spec(doc, e.id as int, 0, (fuel - 1) as nat)
            } else {
                Seq::<Node>::empty()
            },
            _ => Seq::<Node>::empty(),
        }) + preorder_nodes_spec(doc, i, k + 1, fuel)
    }
}

/// The element handles among a preorder node sequence, in order.
pub open spec fn elems_of_nodes(c: Seq<Node>) -> Seq<Element>
    decreases c.len(),
{
    if c.len() == 0 {
        Seq::<Element>::empty()
    } else {
        (match c[0] {
            Node::Element(e) => seq![e],
            _ => Seq::<Element>::empty(),
        }) + elems_of_nodes(c.drop_first())
    }
}

/// The single-parent law: adding an element that already has a parent
/// under any other element always fails with `HasAParent` and leaves the
/// document — both trees — unchanged, whether it is pushed or inserted.
pub proof fn law_single_parent(
    pre: Document,
    parent: Element,
    e: Element,
    post: Document,
    r: Result<(), EditXMLError>,
)
    requires
        pre.wf(),
        e.id != 0,
        (e.id as int) < pre.store@.len(),
        pre.store@[e.id as int].parent is Some,
        push_child_behavior(pre, parent, Node::Element(e), post, r) || insert_child_behavior(
            pre,
            parent,
            0,
            Node::Element(e),
            post,
            r,
        ),
    ensures
        r == Err::<(), EditXMLError>(EditXMLError::HasAParent),
        post == pre,
{
    match r {
        Ok(()) => {
            assert(false);
        },
        Err(err) => {
            match err {
                EditXMLError::HasAParent => {},
                _ => {
                    assert(false);
                },
            }
        },
    }
}

/// The second half of the single-parent law: after a successful detach,
/// pushing the same element under any element always succeeds.
pub proof fn law_detach_then_push(
    pre: Document,
    mid: Document,
    post: Document,
    parent: Element,
    e: Element,
    r1: Result<(), EditXMLError>,
    r2: Result<(), EditXMLError>,
)
    requires
        pre.wf(),
        e.id != 0,
        (e.id as int) < pre.store@.len(),
        detach_behavior(pre, e, mid, r1),
        r1 is Ok,
        push_child_behavior(mid, parent, Node::Element(e), post, r2),
    ensures
        r2 is Ok,
{
    assert(mid.store@[e.id as int].parent is None) by {
        match pre.store@[e.id as int].parent {
            None => {},
            Some(pe) => {
                assert(pre.parent_ok(e.id as int));
                let k = choose|k: int|
                    0 <= k < pre.store@[pe.id as int].children@.len()
                        && pre.store@[pe.id as int].children@[k] == Node::Element(e)
                        && store_updated(
                        pre.store@,
                        mid.store@,
                        e.id as int,
                        None,
                        pe.id as int,
                        pre.store@[pe.id as int].children@.remove(k),
                    );
                assert(store_updated(
                    pre.store@,
                    mid.store@,
                    e.id as int,
                    None,
                    pe.id as int,
                    pre.store@[pe.id as int].children@.remove(k),
                ));
            },
        }
    }
    match r2 {
        Ok(()) => {},
        Err(err) => {
            match err {
                EditXMLError::ContainerCannotMove => {
                    assert(false);
                },
                EditXMLError::HasAParent => {
                    assert(false);
                },
                _ => {
                    assert(false);
                },
            }
        },
    }
}

/// The container-immutability law: any attempt to move, insert or detach
/// the container handle fails with `ContainerCannotMove` and changes
/// nothing.
pub proof fn law_container_cannot_move(
    pre: Document,
    parent: Element,
    container: Element,
    post: Document,
    r: Result<(), EditXMLError>,
)
    requires
        pre.wf(),
        container.id == 0,
        push_child_behavior(pre, parent, Node::Element(container), post, r)
            || insert_child_behavior(pre, parent, 0, Node::Element(container), post, r)
            || detach_behavior(pre, container, post, r),
    ensures
        r == Err::<(), EditXMLError>(EditXMLError::ContainerCannotMove),
        post == pre,
{
    match r {
        Ok(()) => {
            assert(false);
        },
        Err(err) => {
            match err {
                EditXMLError::ContainerCannotMove => {},
                _ => {
                    assert(false);
                },
            }
        },
    }
}

/// Returns true if the element with index `i` appears in the node list.
pub open spec fn elem_in_children(c: Seq<Node>, i: int) -> bool {
    exists|k: int| 0 <= k < c.len() && c[k] == Node::Element(Element { id: i as usize })
}

/// A copy of the node equal to the original.
pub(crate) fn clone_node(n: &Node) -> (r: Node)
    ensures
        r == *n,
{
    match n {
        Node::Element(e) => Node::Element(*e),
        Node::Text(t) => Node::Text(t.clone()),
        Node::Comment(t) => Node::Comment(t.clone()),
        Node::CData(t) => Node::CData(t.clone()),
        Node::PI(t) => Node::PI(t.clone()),
        Node::DocType(t) => Node::DocType(t.clone()),
    }
}

/// Appends the concatenated text of the children of record `i` to `out`,
/// descending at most `fuel` levels into element children.
fn collect_text(doc: &Document, i: usize, fuel: usize, out: &mut String)
    requires
        doc.wf(),
        (i as int) < doc.store@.len(),
    ensures
        final(out)@ == old(out)@ + children_text_spec(*doc, i as int, 0, fuel as nat),
    decreases fuel,
{
    let len = doc.store[i].children.len();
    let mut k: usize = 0;
    while k < len
        invariant
            doc.wf(),
            (i as int) < doc.store@.len(),
            k <= len,
            len == doc.store@[i as int].children@.len(),
            out@ + children_text_spec(*doc, i as int, k as int, fuel as nat) == old(out)@
                + children_text_spec(*doc, i as int, 0, fuel as nat),
        decreases len - k,
    {
        let ghost pre = out@;
        let ghost head = match doc.store@[i as int].children@[k as int] {
            Node::Text(t) => t@,
            Node::CData(t) => t@,
            Node::PI(t) => t@,
            Node::Element(e) => if fuel > 0 && (e.id as int) < doc.store@.len() {
                children_text_spec(*doc, e.id as int, 0, (fuel - 1) as nat)
            } else {
                Seq::<char>::empty()
            },
            _ => Seq::<char>::empty(),
        };
        match &doc.store[i].children[k] {
            Node::Text(t) => {
                out.append(t.as_str());
            },
            Node::CData(t) => {
                out.append(t.as_str());
            },
            Node::PI(t) => {
                out.append(t.as_str());
            },
            Node::Element(e) => {
                if fuel > 0 {
                    proof {
                        assert(doc.child_ok(i as int, k as int));
                    }
                    collect_text(doc, e.id, fuel - 1, out);
                }
            },
            _ => {},
        }
        proof {
            assert(out@ =~= pre + head);
            assert((pre + head) + children_text_spec(*doc, i as int, k + 1, fuel as nat) =~= pre + (
            head + children_text_spec(*doc, i as int, k + 1, fuel as nat)));
        }
        k += 1;
    }
    proof {
        assert(out@ + Seq::<char>::empty() =~= out@);
    }
}

/// Reading whole subtrees.
impl Element {
    /// Concatenates all text content of this element, its child
    /// elements' text included, in document order.
    pub fn text_content(&self, doc: &Document) -> (r: String)
        requires
            doc.wf(),
            self.is_valid_in(doc),
        ensures
            r@ == children_text_spec(*doc, self.id as int, 0, doc.store@.len() as nat),
    {
        let mut out = String::new();
        collect_text(doc, self.id, doc.store.len(), &mut out);
        proof {
            assert(Seq::<char>::empty() + children_text_spec(
                *doc,
                self.id as int,
                0,
                doc.store@.len() as nat,
            ) =~= children_text_spec(*doc, self.id as int, 0, doc.store@.len() as nat));
        }
        out
    }

    /// Removes all children and replaces them with a single text node.
    pub fn set_text_content(&self, doc: &mut Document, text: String)
        requires
            old(doc).wf(),
            self.is_valid_in(old(doc)),
        ensures
            final(doc).wf(),
            doc_meta_same(*old(doc), *final(doc)),
            final(doc).store@.len() == old(doc).store@.len(),
            final(doc).store@[self.id as int].children@ =~= seq![Node::Text(text)],
            forall|i: int|
                0 <= i < old(doc).store@.len() && i != self.id as int
                    ==> (#[trigger] final(doc).store@[i]).children@ == old(
                    doc,
                ).store@[i].children@,
            forall|i: int|
                0 <= i < old(doc).store@.len() ==> ((#[trigger] final(doc).store@[i]).full_name
                    == old(doc).store@[i].full_name && final(doc).store@[i].attributes == old(
                    doc,
                ).store@[i].attributes && final(doc).store@[i].namespace_decls == old(
                    doc,
                ).store@[i].namespace_decls),
            forall|i: int|
                0 <= i < old(doc).store@.len() ==> (#[trigger] final(doc).store@[i]).parent == (
                if elem_in_children(old(doc).store@[self.id as int].children@, i) {
                    None
                } else {
                    old(doc).store@[i].parent
                }),
    {
        let _removed = self.clear_children(doc);
        let ghost mid = *doc;
        let ghost gtext = text;
        match self.push_child(doc, Node::Text(text)) {
            Ok(()) => {},
            Err(_) => {
                proof {
                    assert(false);
                }
            },
        }
        proof {
            assert(mid.store@[self.id as int].children@ =~= Seq::<Node>::empty());
            assert(doc.store@[self.id as int].children@ =~= seq![Node::Text(gtext)]);
        }
    }

    /// The direct element children, in order.
    pub fn child_elements(&self, doc: &Document) -> (r: Vec<Element>)
        requires
            self.is_valid_in(doc),
        ensures
            r@ == child_elements_spec(doc.store@[self.id as int].children@, 0),
    {
        let ghost c = doc.store@[self.id as int].children@;
        let len = doc.store[self.id].children.len();
        let mut out: Vec<Element> = Vec::new();
        let mut k: usize = 0;
        proof {
            assert(Seq::<Element>::empty() + child_elements_spec(c, 0) =~= child_elements_spec(
                c,
                0,
            ));
        }
        while k < len
            invariant
                k <= len,
                (self.id as int) < doc.store@.len(),
                c == doc.store@[self.id as int].children@,
                len == c.len(),
                child_elements_spec(c, 0) == out@ + child_elements_spec(c, k as int),
            decreases len - k,
        {
            let ghost pre = out@;
            let ghost head = match c[k as int] {
                Node::Element(e) => seq![e],
                _ => Seq::<Element>::empty(),
            };
            match doc.store[self.id].children[k].as_element() {
                Some(e) => {
                    out.push(e);
                },
                None => {},
            }
            proof {
                assert(out@ =~= pre + head);
                assert((pre + head) + child_elements_spec(c, k + 1) =~= pre + (head
                    + child_elements_spec(c, k + 1)));
            }
            k += 1;
        }
        proof {
            assert(out@ + Seq::<Element>::empty() =~= out@);
        }
        out
    }

    /// The first direct child element whose local name is `name`.
    pub fn find(&self, doc: &Document, name: &str) -> (r: Option<Element>)
        requires
            doc.wf(),
            self.is_valid_in(doc),
        ensures
            r == find_by_name_spec(*doc, doc.store@[self.id as int].children@, 0, name@),
    {
        let ghost c = doc.store@[self.id as int].children@;
        let len = doc.store[self.id].children.len();
        let mut k: usize = 0;
        while k < len
            invariant
                doc.wf(),
                k <= len,
                (self.id as int) < doc.store@.len(),
                c == doc.store@[self.id as int].children@,
                len == c.len(),
                find_by_name_spec(*doc, c, 0, name@) == find_by_name_spec(*doc, c, k as int, name@),
            decreases len - k,
        {
            match doc.store[self.id].children[k].as_element() {
                Some(e) => {
                    proof {
                        assert(doc.child_ok(self.id as int, k as int));
                    }
                    let nm = e.name(doc);
                    if compare_str(nm, name) {
                        return Some(e);
                    }
                },
                None => {},
            }
            k += 1;
        }
        None
    }

    /// All direct child elements whose local name is `name`, in order.
    pub fn find_all(&self, doc: &Document, name: &str) -> (r: Vec<Element>)
        requires
            doc.wf(),
            self.is_valid_in(doc),
        ensures
            r@ == find_all_spec(*doc, doc.store@[self.id as int].children@, 0, name@),
    {
        let ghost c = doc.store@[self.id as int].children@;
        let len = doc.store[self.id].children.len();
        let mut out: Vec<Element> = Vec::new();
        let mut k: usize = 0;
        proof {
            assert(Seq::<Element>::empty() + find_all_spec(*doc, c, 0, name@) =~= find_all_spec(
                *doc,
                c,
                0,
                name@,
            ));
        }
        while k < len
            invariant
                doc.wf(),
                k <= len,
                (self.id as int) < doc.store@.len(),
                c == doc.store@[self.id as int].children@,
                len == c.len(),
                find_all_spec(*doc, c, 0, name@) == out@ + find_all_spec(*doc, c, k as int, name@),
            decreases len - k,
        {
            let ghost pre = out@;
            let ghost head = match c[k as int] {
                Node::Element(e) => if (e.id as int) < doc.store@.len() && local_name_of(
                    doc.store@[e.id as int].full_name@,
                ) == name@ {
                    seq![e]
                } else {
                    Seq::<Element>::empty()
                },
                _ => Seq::<Element>::empty(),
            };
            match doc.store[self.id].children[k].as_element() {
                Some(e) => {
                    proof {
                        assert(doc.child_ok(self.id as int, k as int));
                    }
                    let nm = e.name(doc);
                    if compare_str(nm, name) {
                        out.push(e);
                    }
                },
                None => {},
            }
            proof {
                assert(out@ =~= pre + head);
                assert((pre + head) + find_all_spec(*doc, c, k + 1, name@) =~= pre + (head
                    + find_all_spec(*doc, c, k + 1, name@)));
            }
            k += 1;
        }
        proof {
            assert(out@ + Seq::<Element>::empty() =~= out@);
        }
        out
    }
}

/// Appends the subtree nodes under record `i` to `out` in preorder,
/// descending at most `fuel` levels.
fn collect_preorder(doc: &Document, i: usize, fuel: usize, out: &mut Vec<Node>)
    requires
        doc.wf(),
        (i as int) < doc.store@.len(),
    ensures
        final(out)@ == old(out)@ + preorder_nodes_spec(*doc, i as int, 0, fuel as nat),
    decreases fuel,
{
    let len = doc.store[i].children.len();
    let mut k: usize = 0;
    while k < len
        invariant
            doc.wf(),
            (i as int) < doc.store@.len(),
            k <= len,
            len == doc.store@[i as int].children@.len(),
            out@ + preorder_nodes_spec(*doc, i as int, k as int, fuel as nat) == old(out)@
                + preorder_nodes_spec(*doc, i as int, 0, fuel as nat),
        decreases len - k,
    {
        let ghost pre = out@;
        let ghost node = doc.store@[i as int].children@[k as int];
        let ghost sub = match node {
            Node::Element(e) => if fuel > 0 && (e.id as int) < doc.store@.len() {
                preorder_nodes_spec(*doc, e.id as int, 0, (fuel - 1) as nat)
            } else {
                Seq::<Node>::empty()
            },
            _ => Seq::<Node>::empty(),
        };
        let child = clone_node(&doc.store[i].children[k]);
        let is_elem = child.as_element();
        out.push(child);
        match is_elem {
            Some(e) => {
                if fuel > 0 {
                    proof {
                        assert(doc.child_ok(i as int, k as int));
                    }
                    collect_preorder(doc, e.id, fuel - 1, out);
                }
            },
            None => {},
        }
        proof {
            assert(out@ =~= (pre + seq![node]) + sub);
            assert(((pre + seq![node]) + sub) + preorder_nodes_spec(
                *doc,
                i as int,
                k + 1,
                fuel as nat,
            ) =~= pre + ((seq![node] + sub) + preorder_nodes_spec(
                *doc,
                i as int,
                k + 1,
                fuel as nat,
            )));
        }
        k += 1;
    }
    proof {
        assert(out@ + Seq::<Node>::empty() =~= out@);
    }
}

/// Recursive traversals.
impl Element {
    /// All nodes below this element, in preorder: each child followed by
    /// its own subtree.
    pub fn children_recursive(&self, doc: &Document) -> (r: Vec<Node>)
        requires
            doc.wf(),
            self.is_valid_in(doc),
        ensures
            r@ == preorder_nodes_spec(*doc, self.id as int, 0, doc.store@.len() as nat),
    {
        let mut out: Vec<Node> = Vec::new();
        collect_preorder(doc, self.id, doc.store.len(), &mut out);
        proof {
            assert(Seq::<Node>::empty() + preorder_nodes_spec(
                *doc,
                self.id as int,
                0,
                doc.store@.len() as nat,
            ) =~= preorder_nodes_spec(*doc, self.id as int, 0, doc.store@.len() as nat));
        }
        out
    }

    /// All elements below this element, in preorder.
    pub fn child_elements_recursive(&self, doc: &Document) -> (r: Vec<Element>)
        requires
            doc.wf(),
            self.is_valid_in(doc),
        ensures
            r@ == elems_of_nodes(
                preorder_nodes_spec(*doc, self.id as int, 0, doc.store@.len() as nat),
            ),
    {
        let nodes = self.children_recursive(doc);
        let ghost ns = nodes@;
        let len = nodes.len();
        let mut out: Vec<Element> = Vec::new();
        let mut k: usize = 0;
        proof {
            assert(ns.skip(0) =~= ns);
            assert(Seq::<Element>::empty() + elems_of_nodes(ns) =~= elems_of_nodes(ns));
        }
        while k < len
            invariant
                k <= len,
                len == ns.len(),
                ns == nodes@,
                elems_of_nodes(ns) == out@ + elems_of_nodes(ns.skip(k as int)),
            decreases len - k,
        {
            let ghost pre = out@;
            let ghost head = match ns[k as int] {
                Node::Element(e) => seq![e],
                _ => Seq::<Element>::empty(),
            };
            proof {
                assert(ns.skip(k as int)[0] == ns[k as int]);
                assert(ns.skip(k as int).drop_first() =~= ns.skip(k + 1));
            }
            match nodes[k].as_element() {
                Some(e) => {
                    out.push(e);
                },
                None => {},
            }
            proof {
                assert(out@ =~= pre + head);
                assert((pre + head) + elems_of_nodes(ns.skip(k + 1)) =~= pre + (head
                    + elems_of_nodes(ns.skip(k + 1))));
            }
            k += 1;
        }
        proof {
            assert(ns.skip(len as int) =~= Seq::<Node>::empty());
            assert(out@ + Seq::<Element>::empty() =~= out@);
        }
        out
    }
}

/// The position of the first pair in `s` at or after `from` whose key
/// reads `key`.
pub open spec fn assoc_index(s: Seq<(String, String)>, key: Seq<char>, from: int) -> Option<int>
    decreases s.len() - from,
{
    if from >= s.len() {
        None
    } else if s[from].0@ == key {
        Some(from)
    } else {
        assoc_index(s, key, from + 1)
    }
}

/// The value stored under `key`: that of the first pair with that key.
pub open spec fn assoc_get(s: Seq<(String, String)>, key: Seq<char>) -> Option<Seq<char>> {
    match assoc_index(s, key, 0) {
        None => None,
        Some(j) => Some(s[j].1@),
    }
}

proof fn lemma_assoc_index_found(s: Seq<(String, String)>, key: Seq<char>, from: int, j: int)
    requires
        0 <= from <= j < s.len(),
        forall|m: int| from <= m < j ==> (#[trigger] s[m]).0@ != key,
        s[j].0@ == key,
    ensures
        assoc_index(s, key, from) == Some(j),
    decreases j - from,
{
    if from < j {
        lemma_assoc_index_found(s, key, from + 1, j);
    }
}

proof fn lemma_assoc_index_none(s: Seq<(String, String)>, key: Seq<char>, from: int)
    requires
        0 <= from,
        forall|m: int| from <= m < s.len() ==> (#[trigger] s[m]).0@ != key,
    ensures
        assoc_index(s, key, from) is None,
    decreases s.len() - from,
{
    if from < s.len() {
        lemma_assoc_index_none(s, key, from + 1);
    }
}

/// Finds the first pair whose key reads `key` and returns its value.
fn assoc_lookup<'a>(v: &'a Vec<(String, String)>, key: &str) -> (r: Option<&'a str>)
    ensures
        (assoc_get(v@, key@) matches Some(val) ==> (r matches Some(s) && s@ == val)),
        (assoc_get(v@, key@) is None ==> r is None),
{
    let n = v.len();
    let mut i: usize = 0;
    while i < n
        invariant
            i <= n,
            n == v@.len(),
            forall|m: int| 0 <= m < i ==> (#[trigger] v@[m]).0@ != key@,
        decreases n - i,
    {
        if compare_str(v[i].0.as_str(), key) {
            proof {
                lemma_assoc_index_found(v@, key@, 0, i as int);
            }
            return Some(v[i].1.as_str());
        }
        i += 1;
    }
    proof {
        lemma_assoc_index_none(v@, key@, 0);
    }
    None
}

/// The list after storing `value` under `key`: the first pair with that
/// key gets the new value, or a new pair is appended.
pub open spec fn assoc_put_spec(s: Seq<(String, String)>, key: String, value: String) -> Seq<
    (String, String),
> {
    match assoc_index(s, key@, 0) {
        Some(j) => s.update(j, (s[j].0, value)),
        None => s.push((key, value)),
    }
}

/// Stores `value` under `key`, replacing the first pair with that key or
/// appending a new pair.
pub(crate) fn assoc_put(v: &mut Vec<(String, String)>, key: String, value: String)
    ensures
        final(v)@ == assoc_put_spec(old(v)@, key, value),
{
    let n = v.len();
    let mut i: usize = 0;
    while i < n
        invariant
            i <= n,
            n == v@.len(),
            *v == *old(v),
            forall|m: int| 0 <= m < i ==> (#[trigger] v@[m]).0@ != key@,
        decreases n - i,
    {
        if compare_str(v[i].0.as_str(), key.as_str()) {
            proof {
                lemma_assoc_index_found(v@, key@, 0, i as int);
            }
            let rec = &mut v[i];
            rec.1 = value;
            return ;
        }
        i += 1;
    }
    proof {
        lemma_assoc_index_none(v@, key@, 0);
    }
    v.push((key, value));
}

/// A change that leaves every parent link and every child list as it
/// was cannot break the tree invariant.
proof fn lemma_wf_after_content_change(old_doc: Document, new_doc: Document)
    requires
        old_doc.wf(),
        new_doc.store@.len() == old_doc.store@.len(),
        forall|i: int|
            0 <= i < old_doc.store@.len() ==> (#[trigger] new_doc.store@[i]).parent
                == old_doc.store@[i].parent && new_doc.store@[i].children@
                == old_doc.store@[i].children@,
        new_doc.counter == old_doc.counter,
        new_doc.container == old_doc.container,
    ensures
        new_doc.wf(),
{
    let n = old_doc.store@.len() as int;
    assert(new_doc.children_ok()) by {
        assert forall|p: int, k: int|
            0 <= p < n && 0 <= k < new_doc.store@[p].children@.len() implies #[trigger] new_doc.child_ok(
            p,
            k,
        ) by {
            assert(old_doc.child_ok(p, k));
            assert(new_doc.store@[p].children@[k] == old_doc.store@[p].children@[k]);
        }
    }
    assert(new_doc.parents_ok()) by {
        assert forall|i: int| 0 <= i < n implies #[trigger] new_doc.parent_ok(i) by {
            assert(old_doc.parent_ok(i));
            match old_doc.store@[i].parent {
                Some(pe) => {
                    let k = choose|k: int|
                        0 <= k < old_doc.store@[pe.id as int].children@.len()
                            && old_doc.store@[pe.id as int].children@[k] == Node::Element(
                            Element { id: i as usize },
                        );
                    assert(new_doc.store@[pe.id as int].children@[k] == Node::Element(
                        Element { id: i as usize },
                    ));
                },
                None => {},
            }
        }
    }
    assert(new_doc.unique_children()) by {
        assert forall|p1: int, k1: int, p2: int, k2: int|
            0 <= p1 < n && 0 <= k1 < new_doc.store@[p1].children@.len() && 0 <= p2 < n && 0 <= k2
                < new_doc.store@[p2].children@.len() && #[trigger] new_doc.store@[p1].children@[k1]
                == #[trigger] new_doc.store@[p2].children@[k2]
                && new_doc.store@[p1].children@[k1] is Element implies p1 == p2 && k1 == k2 by {
            assert(old_doc.unique_children());
            assert(old_doc.store@[p1].children@[k1] == old_doc.store@[p2].children@[k2]);
        }
    }
}

/// Data lookups and edits that take the owning document.
impl Element {
    /// Creates a new element record with the given name, attributes and
    /// namespace declarations, attached to nothing.
    pub fn with_data(
        doc: &mut Document,
        full_name: String,
        attributes: Vec<(String, String)>,
        namespace_decls: Vec<(String, String)>,
    ) -> (elem: Element)
        requires
            old(doc).wf(),
            old(doc).store@.len() < usize::MAX,
        ensures
            final(doc).wf(),
            elem.id == old(doc).store@.len(),
            final(doc).store@.len() == old(doc).store@.len() + 1,
            forall|i: int|
                0 <= i < old(doc).store@.len() ==> final(doc).store@[i] == old(doc).store@[i],
            final(doc).store@.last().full_name == full_name,
            final(doc).store@.last().attributes == attributes,
            final(doc).store@.last().namespace_decls == namespace_decls,
            final(doc).store@.last().parent is None,
            final(doc).store@.last().children@.len() == 0,
            final(doc).counter == old(doc).counter + 1,
            final(doc).container == old(doc).container,
            final(doc).version == old(doc).version,
            final(doc).standalone == old(doc).standalone,
    {
        let data = ElementData {
            full_name,
            attributes,
            namespace_decls,
            parent: None,
            children: Vec::new(),
        };
        doc.push_to_store(data)
    }

    /// Creates a new empty element with the given qualified name.
    pub fn new(doc: &mut Document, full_name: String) -> (elem: Element)
        requires
            old(doc).wf(),
            old(doc).store@.len() < usize::MAX,
        ensures
            final(doc).wf(),
            elem.id == old(doc).store@.len(),
            final(doc).store@.len() == old(doc).store@.len() + 1,
            forall|i: int|
                0 <= i < old(doc).store@.len() ==> final(doc).store@[i] == old(doc).store@[i],
            final(doc).store@.last().full_name == full_name,
            final(doc).store@.last().attributes@.len() == 0,
            final(doc).store@.last().namespace_decls@.len() == 0,
            final(doc).store@.last().parent is None,
            final(doc).store@.last().children@.len() == 0,
            final(doc).counter == old(doc).counter + 1,
            final(doc).container == old(doc).container,
            final(doc).version == old(doc).version,
            final(doc).standalone == old(doc).standalone,
    {
        Self::with_data(doc, full_name, Vec::new(), Vec::new())
    }

    /// The element's parent, if it is attached to one.
    pub fn parent(&self, doc: &Document) -> (r: Option<Element>)
        requires
            self.is_valid_in(doc),
        ensures
            r == doc.store@[self.id as int].parent,
    {
        doc.store[self.id].parent
    }

    /// Whether the element currently has a parent.
    pub fn has_parent(&self, doc: &Document) -> (r: bool)
        requires
            self.is_valid_in(doc),
        ensures
            r == (doc.store@[self.id as int].parent is Some),
    {
        doc.store[self.id].parent.is_some()
    }

    /// Returns true if this element's parent is the container, which
    /// makes it a root node of the document.
    pub fn is_root(&self, doc: &Document) -> (r: bool)
        requires
            self.is_valid_in(doc),
        ensures
            r == (doc.store@[self.id as int].parent matches Some(p) && p.id == 0),
    {
        match doc.store[self.id].parent {
            Some(p) => p.id == 0,
            None => false,
        }
    }

    /// The element's child nodes, in document order.
    pub fn children<'a>(&self, doc: &'a Document) -> (r: &'a Vec<Node>)
        requires
            self.is_valid_in(doc),
        ensures
            r@ == doc.store@[self.id as int].children@,
    {
        &doc.store[self.id].children
    }

    /// Whether the element has any children.
    pub fn has_children(&self, doc: &Document) -> (r: bool)
        requires
            self.is_valid_in(doc),
        ensures
            r == (doc.store@[self.id as int].children@.len() > 0),
    {
        self.children(doc).len() > 0
    }

    /// The element's full qualified name, prefix included.
    pub fn full_name<'a>(&self, doc: &'a Document) -> (r: &'a str)
        requires
            self.is_valid_in(doc),
        ensures
            r@ == doc.store@[self.id as int].full_name@,
    {
        doc.store[self.id].full_name.as_str()
    }

    /// Replaces the element's full qualified name.
    pub fn set_full_name(&self, doc: &mut Document, name: String)
        requires
            old(doc).wf(),
            self.is_valid_in(old(doc)),
        ensures
            final(doc).wf(),
            doc_meta_same(*old(doc), *final(doc)),
            final(doc).store@.len() == old(doc).store@.len(),
            forall|i: int|
                0 <= i < old(doc).store@.len() && i != self.id as int ==> final(doc).store@[i]
                    == old(doc).store@[i],
            final(doc).store@[self.id as int].full_name == name,
            final(doc).store@[self.id as int].attributes == old(
                doc,
            ).store@[self.id as int].attributes,
            final(doc).store@[self.id as int].namespace_decls == old(
                doc,
            ).store@[self.id as int].namespace_decls,
            final(doc).store@[self.id as int].parent == old(doc).store@[self.id as int].parent,
            final(doc).store@[self.id as int].children == old(doc).store@[self.id as int].children,
    {
        let rec = &mut doc.store[self.id];
        rec.full_name = name;
        proof {
            lemma_wf_after_content_change(*old(doc), *doc);
        }
    }

    /// Prefix and local name of the element, split on the first `:`.
    pub fn prefix_name<'a>(&self, doc: &'a Document) -> (r: (&'a str, &'a str))
        requires
            self.is_valid_in(doc),
        ensures
            r.0@ == prefix_of(doc.store@[self.id as int].full_name@),
            r.1@ == local_name_of(doc.store@[self.id as int].full_name@),
    {
        Self::separate_prefix_name(self.full_name(doc))
    }

    /// The element's namespace prefix, empty if it has none.
    pub fn prefix<'a>(&self, doc: &'a Document) -> (r: &'a str)
        requires
            self.is_valid_in(doc),
        ensures
            r@ == prefix_of(doc.store@[self.id as int].full_name@),
    {
        self.prefix_name(doc).0
    }

    /// The element's local name, without its prefix.
    pub fn name<'a>(&self, doc: &'a Document) -> (r: &'a str)
        requires
            self.is_valid_in(doc),
        ensures
            r@ == local_name_of(doc.store@[self.id as int].full_name@),
    {
        self.prefix_name(doc).1
    }

    /// Replaces the element's prefix, keeping its local name; an empty
    /// prefix removes the prefix.
    pub fn set_prefix(&self, doc: &mut Document, prefix: &str)
        requires
            old(doc).wf(),
            self.is_valid_in(old(doc)),
        ensures
            final(doc).wf(),
            doc_meta_same(*old(doc), *final(doc)),
            final(doc).store@.len() == old(doc).store@.len(),
            forall|i: int|
                0 <= i < old(doc).store@.len() && i != self.id as int ==> final(doc).store@[i]
                    == old(doc).store@[i],
            final(doc).store@[self.id as int].full_name@ == (if prefix@.len() == 0 {
                local_name_of(old(doc).store@[self.id as int].full_name@)
            } else {
                prefix@ + seq![':'] + local_name_of(old(doc).store@[self.id as int].full_name@)
            }),
            final(doc).store@[self.id as int].attributes == old(
                doc,
            ).store@[self.id as int].attributes,
            final(doc).store@[self.id as int].namespace_decls == old(
                doc,
            ).store@[self.id as int].namespace_decls,
            final(doc).store@[self.id as int].parent == old(doc).store@[self.id as int].parent,
            final(doc).store@[self.id as int].children == old(doc).store@[self.id as int].children,
    {
        let full = doc.store[self.id].full_name.clone();
        let parts = Self::separate_prefix_name(full.as_str());
        let new_name = if prefix.is_empty() {
            String::from_str(parts.1)
        } else {
            let mut s = String::from_str(prefix);
            s.append(":");
            s.append(parts.1);
            proof {
                reveal_strlit(":");
                assert(":"@ =~= seq![':']);
            }
            s
        };
        let rec = &mut doc.store[self.id];
        rec.full_name = new_name;
        proof {
            lemma_wf_after_content_change(*old(doc), *doc);
        }
    }

    /// Replaces the element's local name, keeping its prefix.
    pub fn set_name(&self, doc: &mut Document, name: &str)
        requires
            old(doc).wf(),
            self.is_valid_in(old(doc)),
        ensures
            final(doc).wf(),
            doc_meta_same(*old(doc), *final(doc)),
            final(doc).store@.len() == old(doc).store@.len(),
            forall|i: int|
                0 <= i < old(doc).store@.len() && i != self.id as int ==> final(doc).store@[i]
                    == old(doc).store@[i],
            final(doc).store@[self.id as int].full_name@ == (if prefix_of(
                old(doc).store@[self.id as int].full_name@,
            ).len() == 0 {
                name@
            } else {
                prefix_of(old(doc).store@[self.id as int].full_name@) + seq![':'] + name@
            }),
            final(doc).store@[self.id as int].attributes == old(
                doc,
            ).store@[self.id as int].attributes,
            final(doc).store@[self.id as int].namespace_decls == old(
                doc,
            ).store@[self.id as int].namespace_decls,
            final(doc).store@[self.id as int].parent == old(doc).store@[self.id as int].parent,
            final(doc).store@[self.id as int].children == old(doc).store@[self.id as int].children,
    {
        let full = doc.store[self.id].full_name.clone();
        let parts = Self::separate_prefix_name(full.as_str());
        let new_name = if parts.0.is_empty() {
            String::from_str(name)
        } else {
            let mut s = String::from_str(parts.0);
            s.append(":");
            s.append(name);
            proof {
                reveal_strlit(":");
                assert(":"@ =~= seq![':']);
            }
            s
        };
        let rec = &mut doc.store[self.id];
        rec.full_name = new_name;
        proof {
            lemma_wf_after_content_change(*old(doc), *doc);
        }
    }

    /// The element's attributes, in the order they were first set.
    pub fn attributes<'a>(&self, doc: &'a Document) -> (r: &'a Vec<(String, String)>)
        requires
            self.is_valid_in(doc),
        ensures
            r@ == doc.store@[self.id as int].attributes@,
    {
        &doc.store[self.id].attributes
    }

    /// The value of the attribute with the given full name, if present.
    pub fn attribute<'a>(&self, doc: &'a Document, name: &str) -> (r: Option<&'a str>)
        requires
            self.is_valid_in(doc),
        ensures
            (assoc_get(doc.store@[self.id as int].attributes@, name@) matches Some(val) ==> (
            r matches Some(s) && s@ == val)),
            (assoc_get(doc.store@[self.id as int].attributes@, name@) is None ==> r is None),
    {
        assoc_lookup(&doc.store[self.id].attributes, name)
    }

    /// Adds or replaces an attribute.
    pub fn set_attribute(&self, doc: &mut Document, name: String, value: String)
        requires
            old(doc).wf(),
            self.is_valid_in(old(doc)),
        ensures
            final(doc).wf(),
            doc_meta_same(*old(doc), *final(doc)),
            final(doc).store@.len() == old(doc).store@.len(),
            forall|i: int|
                0 <= i < old(doc).store@.len() && i != self.id as int ==> final(doc).store@[i]
                    == old(doc).store@[i],
            final(doc).store@[self.id as int].attributes@ == assoc_put_spec(
                old(doc).store@[self.id as int].attributes@,
                name,
                value,
            ),
            final(doc).store@[self.id as int].full_name == old(
                doc,
            ).store@[self.id as int].full_name,
            final(doc).store@[self.id as int].namespace_decls == old(
                doc,
            ).store@[self.id as int].namespace_decls,
            final(doc).store@[self.id as int].parent == old(doc).store@[self.id as int].parent,
            final(doc).store@[self.id as int].children == old(doc).store@[self.id as int].children,
    {
        let rec = &mut doc.store[self.id];
        assoc_put(&mut rec.attributes, name, value);
        proof {
            lemma_wf_after_content_change(*old(doc), *doc);
        }
    }

    /// The namespace declarations made on this element; the default
    /// namespace is keyed by the empty string.
    pub fn namespace_decls<'a>(&self, doc: &'a Document) -> (r: &'a Vec<(String, String)>)
        requires
            self.is_valid_in(doc),
        ensures
            r@ == doc.store@[self.id as int].namespace_decls@,
    {
        &doc.store[self.id].namespace_decls
    }

    /// Resolves a namespace prefix at this element: the reserved `xml`
    /// and `xmlns` prefixes resolve to their fixed URIs; any other prefix
    /// is looked up in this element's declarations and then upward
    /// through its parents, taking the first match.  The walk gives up
    /// after as many steps as there are records, which covers every
    /// chain of distinct parents.
    pub fn namespace_for_prefix<'a>(&self, doc: &'a Document, prefix: &str) -> (r: Option<&'a str>)
        requires
            doc.wf(),
            self.is_valid_in(doc),
        ensures
            prefix@ == "xml"@ ==> (r matches Some(s) && s@
                == "http://www.w3.org/XML/1998/namespace"@),
            prefix@ == "xmlns"@ ==> (r matches Some(s) && s@ == "http://www.w3.org/2000/xmlns/"@),
            prefix@ != "xml"@ && prefix@ != "xmlns"@ ==> (match resolve_prefix_spec(
                *doc,
                self.id as int,
                prefix@,
                doc.store@.len() as nat,
            ) {
                Some(v) => r matches Some(s) && s@ == v,
                None => r is None,
            }),
    {
        proof {
            reveal_strlit("xml");
            reveal_strlit("xmlns");
            assert("xml"@.len() == 3);
            assert("xmlns"@.len() == 5);
        }
        if compare_str(prefix, "xml") {
            return Some("http://www.w3.org/XML/1998/namespace");
        }
        if compare_str(prefix, "xmlns") {
            return Some("http://www.w3.org/2000/xmlns/");
        }
        let n = doc.store.len();
        let mut cur: Element = *self;
        let mut fuel: usize = n;
        while fuel > 0
            invariant
                doc.wf(),
                n == doc.store@.len(),
                (cur.id as int) < doc.store@.len(),
                prefix@ != "xml"@,
                prefix@ != "xmlns"@,
                resolve_prefix_spec(*doc, self.id as int, prefix@, n as nat)
                    == resolve_prefix_spec(*doc, cur.id as int, prefix@, fuel as nat),
            decreases fuel,
        {
            match assoc_lookup(&doc.store[cur.id].namespace_decls, prefix) {
                Some(v) => {
                    return Some(v);
                },
                None => {},
            }
            match doc.store[cur.id].parent {
                Some(pe) => {
                    proof {
                        assert(doc.parent_ok(cur.id as int));
                    }
                    cur = pe;
                },
                None => {
                    return None;
                },
            }
            fuel = fuel - 1;
        }
        None
    }

    /// Resolves this element's own prefix: its namespace.
    pub fn namespace<'a>(&self, doc: &'a Document) -> (r: Option<&'a str>)
        requires
            doc.wf(),
            self.is_valid_in(doc),
        ensures
            ({
                let p = prefix_of(doc.store@[self.id as int].full_name@);
                &&& (p == "xml"@ ==> (r matches Some(s) && s@
                    == "http://www.w3.org/XML/1998/namespace"@))
                &&& (p == "xmlns"@ ==> (r matches Some(s) && s@
                    == "http://www.w3.org/2000/xmlns/"@))
                &&& (p != "xml"@ && p != "xmlns"@ ==> (match resolve_prefix_spec(
                    *doc,
                    self.id as int,
                    p,
                    doc.store@.len() as nat,
                ) {
                    Some(v) => r matches Some(s) && s@ == v,
                    None => r is None,
                }))
            }),
    {
        let p = self.prefix(doc);
        self.namespace_for_prefix(doc, p)
    }

    /// Adds or replaces a namespace declaration.
    pub fn set_namespace_decl(&self, doc: &mut Document, prefix: String, namespace: String)
        requires
            old(doc).wf(),
            self.is_valid_in(old(doc)),
        ensures
            final(doc).wf(),
            doc_meta_same(*old(doc), *final(doc)),
            final(doc).store@.len() == old(doc).store@.len(),
            forall|i: int|
                0 <= i < old(doc).store@.len() && i != self.id as int ==> final(doc).store@[i]
                    == old(doc).store@[i],
            final(doc).store@[self.id as int].namespace_decls@ == assoc_put_spec(
                old(doc).store@[self.id as int].namespace_decls@,
                prefix,
                namespace,
            ),
            final(doc).store@[self.id as int].full_name == old(
                doc,
            ).store@[self.id as int].full_name,
            final(doc).store@[self.id as int].attributes == old(
                doc,
            ).store@[self.id as int].attributes,
            final(doc).store@[self.id as int].parent == old(doc).store@[self.id as int].parent,
            final(doc).store@[self.id as int].children == old(doc).store@[self.id as int].children,
    {
        let rec = &mut doc.store[self.id];
        assoc_put(&mut rec.namespace_decls, prefix, namespace);
        proof {
            lemma_wf_after_content_change(*old(doc), *doc);
        }
    }
}

} // verus!
