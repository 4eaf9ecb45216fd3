//! The owning document: an append-only arena of element records.
//!
//! Records are only ever appended; removing a node from the tree clears
//! its parent link but never frees its record, so handles stay stable for
//! the document's whole life.

use crate::element::{Element, ElementData};
use crate::error::{EditXMLError, MalformedReason};
use crate::node::Node;
use crate::types::StandaloneValue;
use vstd::prelude::*;

verus! {

/// An XML document or document fragment: the arena of element records,
/// the declared version and the optional standalone flag.
#[derive(Debug)]
pub struct Document {
    /// The next handle to assign; always equal to `store.len()`.
    pub counter: usize,
    /// The arena: one record per element ever created.
    pub store: Vec<ElementData>,
    /// The container handle, always index 0.
    pub container: Element,
    /// The declared XML version.
    pub version: String,
    /// The declared standalone flag, if any.
    pub standalone: Option<StandaloneValue>,
}

impl Document {
    /// The condition a single element child at position `k` of record `p`
    /// must meet: a real record other than the container, whose parent
    /// link points back at `p`.
    pub open spec fn child_ok(&self, p: int, k: int) -> bool {
        match self.store@[p].children@[k] {
            Node::Element(e) => e.id != 0 && (e.id as int) < self.store@.len()
                && (match self.store@[e.id as int].parent {
                Some(pe) => pe.id == p,
                None => false,
            }),
            _ => true,
        }
    }

    /// Every element child of every record points back at its parent.
    pub open spec fn children_ok(&self) -> bool {
        forall|p: int, k: int|
            0 <= p < self.store@.len() && 0 <= k < self.store@[p].children@.len()
                ==> #[trigger] self.child_ok(p, k)
    }

    /// The condition the parent link of record `i` must meet: the parent
    /// is a real record whose child list holds `i`.
    pub open spec fn parent_ok(&self, i: int) -> bool {
        match self.store@[i].parent {
            Some(pe) => (pe.id as int) < self.store@.len() && exists|k: int|
                0 <= k < self.store@[pe.id as int].children@.len()
                    && self.store@[pe.id as int].children@[k] == Node::Element(
                    Element { id: i as usize },
                ),
            None => true,
        }
    }

    /// Every record with a parent appears in that parent's child list.
    pub open spec fn parents_ok(&self) -> bool {
        forall|i: int| 0 <= i < self.store@.len() ==> #[trigger] self.parent_ok(i)
    }

    /// No element appears twice among all child lists: each element has
    /// at most one parent and one position under it.
    pub open spec fn unique_children(&self) -> bool {
        forall|p1: int, k1: int, p2: int, k2: int|
            0 <= p1 < self.store@.len() && 0 <= k1 < self.store@[p1].children@.len() && 0 <= p2
                < self.store@.len() && 0 <= k2 < self.store@[p2].children@.len()
                && #[trigger] self.store@[p1].children@[k1] == #[trigger] self.store@[p2].children@[k2]
                && self.store@[p1].children@[k1] is Element ==> p1 == p2 && k1 == k2
    }

    /// The document's structural invariant: the counter matches the store,
    /// the container is record 0 and has no parent, and parent links and
    /// child lists agree.
    pub open spec fn wf(&self) -> bool {
        &&& self.counter == self.store@.len()
        &&& self.store@.len() >= 1
        &&& self.container.id == 0
        &&& self.store@[0].parent is None
        &&& self.children_ok()
        &&& self.parents_ok()
        &&& self.unique_children()
    }

    /// An empty, parent-less, child-less record.
    fn blank_record() -> (d: ElementData)
        ensures
            d.full_name@.len() == 0,
            d.attributes@.len() == 0,
            d.namespace_decls@.len() == 0,
            d.parent is None,
            d.children@.len() == 0,
    {
        ElementData {
            full_name: String::new(),
            attributes: Vec::new(),
            namespace_decls: Vec::new(),
            parent: None,
            children: Vec::new(),
        }
    }

    /// Creates a blank document: only the container record, version
    /// `1.0`, no standalone flag.
    pub fn new() -> (doc: Document)
        ensures
            doc.wf(),
            doc.store@.len() == 1,
            doc.store@[0].full_name@.len() == 0,
            doc.store@[0].attributes@.len() == 0,
            doc.store@[0].namespace_decls@.len() == 0,
            doc.store@[0].parent is None,
            doc.store@[0].children@.len() == 0,
            doc.version@ == "1.0"@,
            doc.standalone is None,
    {
        Self::new_with_store_size(0)
    }

    /// Creates a blank document whose store has room for `size` records
    /// besides the container.
    pub fn new_with_store_size(size: usize) -> (doc: Document)
        ensures
            doc.wf(),
            doc.store@.len() == 1,
            doc.store@[0].full_name@.len() == 0,
            doc.store@[0].attributes@.len() == 0,
            doc.store@[0].namespace_decls@.len() == 0,
            doc.store@[0].parent is None,
            doc.store@[0].children@.len() == 0,
            doc.version@ == "1.0"@,
            doc.standalone is None,
    {
        let mut store: Vec<ElementData> = Vec::with_capacity(if size < usize::MAX {
            size + 1
        } else {
            size
        });
        store.push(Self::blank_record());
        let doc = Document {
            counter: 1,
            store,
            container: Element { id: 0 },
            version: String::from_str("1.0"),
            standalone: None,
        };
        proof {
            assert(doc.children_ok()) by {
                assert forall|p: int, k: int|
                    0 <= p < doc.store@.len() && 0 <= k
                        < doc.store@[p].children@.len() implies #[trigger] doc.child_ok(
                    p,
                    k,
                ) by {}
            }
            assert(doc.parents_ok()) by {
                assert forall|i: int| 0 <= i < doc.store@.len() implies #[trigger] doc.parent_ok(
                    i,
                ) by {}
            }
        }
        doc
    }

    /// The number of element records, the container included.
    pub fn number_of_elements(&self) -> (n: usize)
        ensures
            n == self.store@.len(),
    {
        self.store.len()
    }

    /// The container element, handle 0: the invisible parent-less record
    /// that owns the document's root nodes.
    pub fn container(&self) -> (r: Element)
        ensures
            r == self.container,
    {
        self.container
    }

    /// Returns true while the document holds nothing but the container.
    pub fn is_empty(&self) -> (r: bool)
        ensures
            r == (self.store@.len() == 1),
    {
        self.store.len() == 1
    }

    /// The document's root nodes: the children of the container.
    pub fn root_nodes<'a>(&'a self) -> (r: &'a Vec<Node>)
        requires
            self.wf(),
        ensures
            r@ == self.store@[0].children@,
    {
        &self.store[0].children
    }

    /// The first root node that is an element.
    pub fn root_element(&self) -> (r: Option<Element>)
        requires
            self.wf(),
        ensures
            ({
                let elems = crate::element::child_elements_spec(self.store@[0].children@, 0);
                r == (if elems.len() == 0 {
                    None
                } else {
                    Some(elems[0])
                })
            }),
    {
        let elems = self.container.child_elements(self);
        if elems.len() == 0 {
            None
        } else {
            Some(elems[0])
        }
    }

    /// Appends `node` to the end of the root nodes; the same rules apply
    /// as for any other parent.
    pub fn push_root_node(&mut self, node: Node) -> (r: Result<(), EditXMLError>)
        requires
            old(self).wf(),
            (node matches Node::Element(e) ==> e.is_valid_in(old(self))),
        ensures
            final(self).wf(),
            crate::element::doc_meta_same(*old(self), *final(self)),
            (match r {
                Ok(()) => (match node {
                    Node::Element(e) => e.id != 0 && old(self).store@[e.id as int].parent is None
                        && crate::element::store_updated(
                        old(self).store@,
                        final(self).store@,
                        e.id as int,
                        Some(old(self).container),
                        0,
                        old(self).store@[0].children@.push(node),
                    ),
                    _ => crate::element::store_updated(
                        old(self).store@,
                        final(self).store@,
                        -1,
                        None,
                        0,
                        old(self).store@[0].children@.push(node),
                    ),
                }),
                Err(err) => *final(self) == *old(self) && (match err {
                    EditXMLError::ContainerCannotMove => node matches Node::Element(el) && el.id
                        == 0,
                    EditXMLError::HasAParent => (node matches Node::Element(el) && el.id != 0
                        && old(self).store@[el.id as int].parent is Some),
                    _ => false,
                }),
            }),
    {
        let elem = self.container;
        elem.push_child(self, node)
    }

    /// Appends a record to the store and hands back its new handle.
    /// Handles are never reused; the arena only grows.
    pub fn push_to_store(&mut self, data: ElementData) -> (elem: Element)
        requires
            old(self).wf(),
            data.parent is None,
            data.children@.len() == 0,
            old(self).store@.len() < usize::MAX,
        ensures
            final(self).wf(),
            elem.id == old(self).store@.len(),
            final(self).store@ == old(self).store@.push(data),
            final(self).counter == old(self).counter + 1,
            final(self).container == old(self).container,
            final(self).version == old(self).version,
            final(self).standalone == old(self).standalone,
    {
        let elem = Element { id: self.counter };
        self.counter = self.counter + 1;
        self.store.push(data);
        proof {
            let n = self.store@.len() as int;
            assert(self.children_ok()) by {
                assert forall|p: int, k: int|
                    0 <= p < n && 0 <= k < self.store@[p].children@.len() implies #[trigger] self.child_ok(
                    p,
                    k,
                ) by {
                    if p < n - 1 {
                        assert(old(self).child_ok(p, k));
                    }
                }
            }
            assert(self.parents_ok()) by {
                assert forall|i: int| 0 <= i < n implies #[trigger] self.parent_ok(i) by {
                    if i < n - 1 {
                        assert(old(self).parent_ok(i));
                        match old(self).store@[i].parent {
                            Some(pe) => {
                                let k = choose|k: int|
                                    0 <= k < old(self).store@[pe.id as int].children@.len() && old(
                                        self,
                                    ).store@[pe.id as int].children@[k] == Node::Element(
                                        Element { id: i as usize },
                                    );
                                assert(self.store@[pe.id as int].children@[k] == Node::Element(
                                    Element { id: i as usize },
                                ));
                            },
                            None => {},
                        }
                    }
                }
            }
            assert(self.unique_children()) by {
                assert forall|p1: int, k1: int, p2: int, k2: int|
                    0 <= p1 < n && 0 <= k1 < self.store@[p1].children@.len() && 0 <= p2 < n && 0
                        <= k2 < self.store@[p2].children@.len()
                        && #[trigger] self.store@[p1].children@[k1]
                        == #[trigger] self.store@[p2].children@[k2]
                        && self.store@[p1].children@[k1] is Element implies p1 == p2 && k1
                    == k2 by {
                    if p1 < n - 1 && p2 < n - 1 {
                        assert(old(self).unique_children());
                        assert(old(self).store@[p1].children@[k1] == old(
                            self,
                        ).store@[p2].children@[k2]);
                    }
                }
            }
        }
        elem
    }
}

/// Options when writing XML.
#[derive(Debug, Clone, Copy, PartialEq, Eq, Structural)]
pub struct WriteOptions {
    /// Byte character to indent with.
    pub indent_char: u8,
    /// How many indent characters make up one level of indentation.
    pub indent_size: usize,
    /// Whether an XML declaration is written at the top.
    pub write_decl: bool,
}

impl Default for WriteOptions {
    /// A space as indent character, two per level, declaration written.
    fn default() -> (r: Self)
        ensures
            r.indent_char == 32,
            r.indent_size == 2,
            r.write_decl,
    {
        WriteOptions { indent_char: 32, indent_size: 2, write_decl: true }
    }
}

/// `n` copies of `c`.
pub open spec fn rep_char(c: char, n: nat) -> Seq<char>
    decreases n,
{
    if n == 0 {
        Seq::<char>::empty()
    } else {
        rep_char(c, (n - 1) as nat).push(c)
    }
}

/// The indentation for `level` levels: `level` runs of `size` copies of
/// the indent character.
pub open spec fn indent_spec(c: char, size: nat, level: nat) -> Seq<char>
    decreases level,
{
    if level == 0 {
        Seq::<char>::empty()
    } else {
        indent_spec(c, size, (level - 1) as nat) + rep_char(c, size)
    }
}

/// What stands before a tag when a line break is pending: a newline and
/// the current indentation.  Text and CDATA never set a break, so that
/// indentation is never inserted into character content.
pub open spec fn break_spec(pending: bool, opts: WriteOptions, level: nat) -> Seq<char> {
    if pending {
        seq!['\n'] + indent_spec(opts.indent_char as char, opts.indent_size as nat, level)
    } else {
        Seq::<char>::empty()
    }
}

/// The serialized form of an attribute list: one ` name="value"` per
/// pair, values escaped.
pub open spec fn ser_attrs_spec(pairs: Seq<(String, String)>, from: int) -> Seq<char>
    decreases pairs.len() - from,
{
    if from < 0 || from >= pairs.len() {
        Seq::<char>::empty()
    } else {
        seq![' '] + pairs[from].0@ + seq!['=', '"'] + crate::utils::encoding::escape_spec(
            pairs[from].1@,
        ) + seq!['"'] + ser_attrs_spec(pairs, from + 1)
    }
}

/// The serialized form of namespace declarations: ` xmlns="uri"` for the
/// default namespace and ` xmlns:prefix="uri"` otherwise, values escaped.
pub open spec fn ser_ns_spec(pairs: Seq<(String, String)>, from: int) -> Seq<char>
    decreases pairs.len() - from,
{
    if from < 0 || from >= pairs.len() {
        Seq::<char>::empty()
    } else {
        seq![' ', 'x', 'm', 'l', 'n', 's'] + (if pairs[from].0@.len() == 0 {
            Seq::<char>::empty()
        } else {
            seq![':'] + pairs[from].0@
        }) + seq!['=', '"'] + crate::utils::encoding::escape_spec(pairs[from].1@) + seq!['"']
            + ser_ns_spec(pairs, from + 1)
    }
}

/// The serialized declaration: version, the fixed `UTF-8` label, and the
/// standalone marker when one is set.
pub open spec fn ser_decl_spec(version: Seq<char>, standalone: Option<StandaloneValue>) -> Seq<
    char,
> {
    seq!['<', '?', 'x', 'm', 'l', ' ', 'v', 'e', 'r', 's', 'i', 'o', 'n', '=', '"'] + version
        + seq!['"', ' ', 'e', 'n', 'c', 'o', 'd', 'i', 'n', 'g', '=', '"', 'U', 'T', 'F', '-', '8', '"']
        + (match standalone {
        Some(v) => seq![' ', 's', 't', 'a', 'n', 'd', 'a', 'l', 'o', 'n', 'e', '=', '"'] + (
        if v is Yes {
            seq!['y', 'e', 's']
        } else {
            seq!['n', 'o']
        }) + seq!['"'],
        None => Seq::<char>::empty(),
    }) + seq!['?', '>']
}

/// The serialized form of one element: its start tag with attributes
/// and namespace declarations, then either an empty-element close when
/// it has no children, or its serialized children and an end tag.
/// `None` when the nesting exceeds `fuel` levels.
pub open spec fn ser_element_spec(
    doc: Document,
    opts: WriteOptions,
    eid: int,
    level: nat,
    pending: bool,
    fuel: nat,
) -> Option<(Seq<char>, bool)>
    decreases fuel, 0nat, 0nat,
{
    if eid < 0 || eid >= doc.store@.len() {
        Some((Seq::<char>::empty(), pending))
    } else {
        let head = break_spec(pending, opts, level) + seq!['<'] + doc.store@[eid].full_name@
            + ser_attrs_spec(doc.store@[eid].attributes@, 0) + ser_ns_spec(
            doc.store@[eid].namespace_decls@,
            0,
        );
        if doc.store@[eid].children@.len() == 0 {
            Some((head + seq!['/', '>'], true))
        } else if fuel == 0 {
            None
        } else {
            match ser_children_spec(doc, opts, eid, 0, level + 1, true, (fuel - 1) as nat) {
                None => None,
                Some((body, p2)) => Some(
                    (
                        head + seq!['>'] + body + break_spec(p2, opts, level) + seq!['<', '/']
                            + doc.store@[eid].full_name@ + seq!['>'],
                        true,
                    ),
                ),
            }
        }
    }
}

/// The serialized form of the children of record `i` from position `j`
/// on, at the given indent level, together with the line-break flag left
/// for whatever follows.  `None` when the element nesting exceeds `fuel`
/// levels, which cannot happen for a tree reachable from the container.
pub open spec fn ser_children_spec(
    doc: Document,
    opts: WriteOptions,
    i: int,
    j: int,
    level: nat,
    pending: bool,
    fuel: nat,
) -> Option<(Seq<char>, bool)>
    decreases fuel, doc.store@[i].children@.len() - j, 1nat,
{
    if j < 0 || j >= doc.store@[i].children@.len() {
        Some((Seq::<char>::empty(), pending))
    } else {
        let step: Option<(Seq<char>, bool)> = match doc.store@[i].children@[j] {
            Node::Text(t) => Some((crate::utils::encoding::escape_spec(t@), false)),
            Node::CData(t) => Some(
                (
                    seq!['<', '!', '[', 'C', 'D', 'A', 'T', 'A', '['] + t@ + seq![']', ']', '>'],
                    false,
                ),
            ),
            Node::Comment(t) => Some(
                (
                    break_spec(pending, opts, level) + seq!['<', '!', '-', '-'] + t@ + seq!['-', '-', '>'],
                    true,
                ),
            ),
            Node::PI(t) => Some(
                (break_spec(pending, opts, level) + seq!['<', '?'] + t@ + seq!['?', '>'], true),
            ),
            Node::DocType(t) => Some(
                (
                    break_spec(pending, opts, level)
                        + seq!['<', '!', 'D', 'O', 'C', 'T', 'Y', 'P', 'E', ' '] + t@ + seq!['>'],
                    true,
                ),
            ),
            Node::Element(e) => ser_element_spec(doc, opts, e.id as int, level, pending, fuel),
        };
        match step {
            None => None,
            Some((t1, p1)) => match ser_children_spec(doc, opts, i, j + 1, level, p1, fuel) {
                None => None,
                Some((t2, p2)) => Some((t1 + t2, p2)),
            },
        }
    }
}

/// The full serialized document: the declaration when requested, then
/// the container's children at indent level zero.
pub open spec fn ser_doc_spec(doc: Document, opts: WriteOptions) -> Option<Seq<char>> {
    let head = if opts.write_decl {
        ser_decl_spec(doc.version@, doc.standalone)
    } else {
        Seq::<char>::empty()
    };
    match ser_children_spec(doc, opts, 0, 0, 0, opts.write_decl, doc.store@.len() as nat) {
        None => None,
        Some((body, _)) => Some(head + body),
    }
}

/// Appends a pending line break and the indentation for `level`.
fn write_break(out: &mut Vec<char>, pending: bool, opts: &WriteOptions, level: usize)
    ensures
        final(out)@ == old(out)@ + break_spec(pending, *opts, level as nat),
{
    if !pending {
        proof {
            assert(old(out)@ + break_spec(false, *opts, level as nat) =~= old(out)@);
        }
        return ;
    }
    out.push('\n');
    let c = opts.indent_char as char;
    let mut a: usize = 0;
    proof {
        assert(out@ =~= old(out)@ + seq!['\n'] + indent_spec(c, opts.indent_size as nat, 0));
    }
    while a < level
        invariant
            a <= level,
            c == opts.indent_char as char,
            out@ == old(out)@ + seq!['\n'] + indent_spec(c, opts.indent_size as nat, a as nat),
        decreases level - a,
    {
        let ghost outer_pre = out@;
        let mut b: usize = 0;
        proof {
            assert(outer_pre + rep_char(c, 0) =~= outer_pre);
        }
        while b < opts.indent_size
            invariant
                b <= opts.indent_size,
                c == opts.indent_char as char,
                out@ == outer_pre + rep_char(c, b as nat),
            decreases opts.indent_size - b,
        {
            out.push(c);
            b += 1;
        }
        proof {
            assert(old(out)@ + seq!['\n'] + indent_spec(c, opts.indent_size as nat, (a + 1) as nat)
                =~= outer_pre + rep_char(c, opts.indent_size as nat));
        }
        a += 1;
    }
    proof {
        assert(old(out)@ + break_spec(true, *opts, level as nat) =~= out@);
    }
}

/// Appends the escaped form of `s`.
fn write_escaped(out: &mut Vec<char>, s: &str)
    ensures
        final(out)@ == old(out)@ + crate::utils::encoding::escape_spec(s@),
{
    let escaped = crate::utils::encoding::escape(s);
    crate::utils::push_chars(out, escaped.as_str());
}

/// Appends the attribute list, one ` name="value"` per pair.
fn write_attrs(out: &mut Vec<char>, pairs: &Vec<(String, String)>)
    ensures
        final(out)@ == old(out)@ + ser_attrs_spec(pairs@, 0),
{
    let n = pairs.len();
    let mut k: usize = 0;
    proof {
        assert(old(out)@ + Seq::<char>::empty() =~= old(out)@);
    }
    while k < n
        invariant
            k <= n,
            n == pairs@.len(),
            out@ + ser_attrs_spec(pairs@, k as int) == old(out)@ + ser_attrs_spec(pairs@, 0),
        decreases n - k,
    {
        let ghost pre = out@;
        out.push(' ');
        crate::utils::push_chars(out, pairs[k].0.as_str());
        out.push('=');
        out.push('"');
        write_escaped(out, pairs[k].1.as_str());
        out.push('"');
        proof {
            let head = seq![' '] + pairs@[k as int].0@ + seq!['=', '"']
                + crate::utils::encoding::escape_spec(pairs@[k as int].1@) + seq!['"'];
            assert(out@ =~= pre + head);
            assert((pre + head) + ser_attrs_spec(pairs@, k + 1) =~= pre + (head + ser_attrs_spec(
                pairs@,
                k + 1,
            )));
        }
        k += 1;
    }
    proof {
        assert(out@ + Seq::<char>::empty() =~= out@);
    }
}

/// Appends the namespace declarations, ` xmlns="uri"` or
/// ` xmlns:prefix="uri"` per pair.
fn write_ns(out: &mut Vec<char>, pairs: &Vec<(String, String)>)
    ensures
        final(out)@ == old(out)@ + ser_ns_spec(pairs@, 0),
{
    let n = pairs.len();
    let mut k: usize = 0;
    proof {
        assert(old(out)@ + Seq::<char>::empty() =~= old(out)@);
    }
    while k < n
        invariant
            k <= n,
            n == pairs@.len(),
            out@ + ser_ns_spec(pairs@, k as int) == old(out)@ + ser_ns_spec(pairs@, 0),
        decreases n - k,
    {
        let ghost pre = out@;
        out.push(' ');
        out.push('x');
        out.push('m');
        out.push('l');
        out.push('n');
        out.push('s');
        if !pairs[k].0.as_str().is_empty() {
            out.push(':');
            crate::utils::push_chars(out, pairs[k].0.as_str());
        }
        out.push('=');
        out.push('"');
        write_escaped(out, pairs[k].1.as_str());
        out.push('"');
        proof {
            let head = seq![' ', 'x', 'm', 'l', 'n', 's'] + (if pairs@[k as int].0@.len() == 0 {
                Seq::<char>::empty()
            } else {
                seq![':'] + pairs@[k as int].0@
            }) + seq!['=', '"'] + crate::utils::encoding::escape_spec(pairs@[k as int].1@)
                + seq!['"'];
            assert(out@ =~= pre + head);
            assert((pre + head) + ser_ns_spec(pairs@, k + 1) =~= pre + (head + ser_ns_spec(
                pairs@,
                k + 1,
            )));
        }
        k += 1;
    }
    proof {
        assert(out@ + Seq::<char>::empty() =~= out@);
    }
}

/// Appends a CDATA section, payload verbatim.
fn write_cdata_node(out: &mut Vec<char>, t: &str)
    ensures
        final(out)@ == old(out)@ + (seq!['<', '!', '[', 'C', 'D', 'A', 'T', 'A', '['] + t@
            + seq![']', ']', '>']),
{
    let ghost pre = out@;
    out.push('<');
    out.push('!');
    out.push('[');
    out.push('C');
    out.push('D');
    out.push('A');
    out.push('T');
    out.push('A');
    out.push('[');
    crate::utils::push_chars(out, t);
    out.push(']');
    out.push(']');
    out.push('>');
    proof {
        assert(out@ =~= pre + (seq!['<', '!', '[', 'C', 'D', 'A', 'T', 'A', '['] + t@
            + seq![']', ']', '>']));
    }
}

/// Appends a comment, payload verbatim, after a pending break.
fn write_comment_node(out: &mut Vec<char>, pending: bool, opts: &WriteOptions, level: usize, t: &str)
    ensures
        final(out)@ == old(out)@ + (break_spec(pending, *opts, level as nat)
            + seq!['<', '!', '-', '-'] + t@ + seq!['-', '-', '>']),
{
    let ghost pre = out@;
    write_break(out, pending, opts, level);
    out.push('<');
    out.push('!');
    out.push('-');
    out.push('-');
    crate::utils::push_chars(out, t);
    out.push('-');
    out.push('-');
    out.push('>');
    proof {
        assert(out@ =~= pre + (break_spec(pending, *opts, level as nat) + seq!['<', '!', '-', '-']
            + t@ + seq!['-', '-', '>']));
    }
}

/// Appends a processing instruction, payload verbatim, after a pending
/// break.
fn write_pi_node(out: &mut Vec<char>, pending: bool, opts: &WriteOptions, level: usize, t: &str)
    ensures
        final(out)@ == old(out)@ + (break_spec(pending, *opts, level as nat) + seq!['<', '?'] + t@
            + seq!['?', '>']),
{
    let ghost pre = out@;
    write_break(out, pending, opts, level);
    out.push('<');
    out.push('?');
    crate::utils::push_chars(out, t);
    out.push('?');
    out.push('>');
    proof {
        assert(out@ =~= pre + (break_spec(pending, *opts, level as nat) + seq!['<', '?'] + t@
            + seq!['?', '>']));
    }
}

/// Appends a doctype declaration, re-prefixed with a single space, after
/// a pending break.
fn write_doctype_node(out: &mut Vec<char>, pending: bool, opts: &WriteOptions, level: usize, t: &str)
    ensures
        final(out)@ == old(out)@ + (break_spec(pending, *opts, level as nat)
            + seq!['<', '!', 'D', 'O', 'C', 'T', 'Y', 'P', 'E', ' '] + t@ + seq!['>']),
{
    let ghost pre = out@;
    write_break(out, pending, opts, level);
    out.push('<');
    out.push('!');
    out.push('D');
    out.push('O');
    out.push('C');
    out.push('T');
    out.push('Y');
    out.push('P');
    out.push('E');
    out.push(' ');
    crate::utils::push_chars(out, t);
    out.push('>');
    proof {
        assert(out@ =~= pre + (break_spec(pending, *opts, level as nat)
            + seq!['<', '!', 'D', 'O', 'C', 'T', 'Y', 'P', 'E', ' '] + t@ + seq!['>']));
    }
}

/// Serializes one element: break and start tag, then children and end
/// tag or an empty-element close.  Returns the line-break flag left for
/// whatever follows.
#[verifier::rlimit(60)]
fn write_element_node(
    doc: &Document,
    opts: &WriteOptions,
    eid: usize,
    level: usize,
    pending: bool,
    fuel: usize,
    out: &mut Vec<char>,
) -> (r: Result<bool, EditXMLError>)
    requires
        doc.wf(),
        (eid as int) < doc.store@.len(),
        level as int + fuel as int <= usize::MAX,
    ensures
        (match ser_element_spec(*doc, *opts, eid as int, level as nat, pending, fuel as nat) {
            Some((text, p2)) => (r matches Ok(p) && p == p2 && final(out)@ == old(out)@ + text),
            None => (r matches Err(e) && e matches EditXMLError::MalformedXML(
                MalformedReason::GenericMalformedTree,
            )),
        }),
    decreases fuel, 0nat, 0nat,
{
    let ghost pre = out@;
    write_break(out, pending, opts, level);
    out.push('<');
    crate::utils::push_chars(out, doc.store[eid].full_name.as_str());
    write_attrs(out, &doc.store[eid].attributes);
    write_ns(out, &doc.store[eid].namespace_decls);
    let ghost head = break_spec(pending, *opts, level as nat) + seq!['<']
        + doc.store@[eid as int].full_name@ + ser_attrs_spec(doc.store@[eid as int].attributes@, 0)
        + ser_ns_spec(doc.store@[eid as int].namespace_decls@, 0);
    proof {
        assert(out@ =~= pre + head);
    }
    if doc.store[eid].children.len() == 0 {
        out.push('/');
        out.push('>');
        proof {
            assert(out@ =~= pre + (head + seq!['/', '>']));
        }
        return Ok(true);
    }
    if fuel == 0 {
        return Err(EditXMLError::MalformedXML(MalformedReason::GenericMalformedTree));
    }
    out.push('>');
    let ghost before_body = out@;
    match write_children(doc, opts, eid, level + 1, true, fuel - 1, out) {
        Ok(p2) => {
            let ghost body_done = out@;
            write_break(out, p2, opts, level);
            out.push('<');
            out.push('/');
            crate::utils::push_chars(out, doc.store[eid].full_name.as_str());
            out.push('>');
            proof {
                match ser_children_spec(
                    *doc,
                    *opts,
                    eid as int,
                    0,
                    (level + 1) as nat,
                    true,
                    (fuel - 1) as nat,
                ) {
                    Some((b, pp)) => {
                        assert(body_done =~= before_body + b);
                        assert(out@ =~= pre + (head + seq!['>'] + b + break_spec(
                            pp,
                            *opts,
                            level as nat,
                        ) + seq!['<', '/'] + doc.store@[eid as int].full_name@ + seq!['>']));
                    },
                    None => {
                        assert(false);
                    },
                }
            }
            Ok(true)
        },
        Err(err) => Err(err),
    }
}

/// Serializes the children of record `i`, returning the line-break flag
/// left for whatever follows, or an error if the element nesting exceeds
/// `fuel` levels.  On an error the buffer holds partial output, which
/// the callers discard.
#[verifier::rlimit(100)]
fn write_children(
    doc: &Document,
    opts: &WriteOptions,
    i: usize,
    level: usize,
    pending: bool,
    fuel: usize,
    out: &mut Vec<char>,
) -> (r: Result<bool, EditXMLError>)
    requires
        doc.wf(),
        (i as int) < doc.store@.len(),
        level as int + fuel as int <= usize::MAX,
    ensures
        (match ser_children_spec(*doc, *opts, i as int, 0, level as nat, pending, fuel as nat) {
            Some((text, p2)) => (r matches Ok(p) && p == p2 && final(out)@ == old(out)@ + text),
            None => (r matches Err(e) && e matches EditXMLError::MalformedXML(
                MalformedReason::GenericMalformedTree,
            )),
        }),
    decreases fuel, doc.store@[i as int].children@.len(), 1nat,
{
    let ghost base = out@;
    let ghost baselen = base.len() as int;
    let ghost spec0 = ser_children_spec(
        *doc,
        *opts,
        i as int,
        0,
        level as nat,
        pending,
        fuel as nat,
    );
    let len = doc.store[i].children.len();
    let mut k: usize = 0;
    let mut pend = pending;
    proof {
        assert(out@.skip(baselen) =~= Seq::<char>::empty());
        match spec0 {
            Some((t2, p2)) => {
                assert(out@.skip(baselen) + t2 =~= t2);
            },
            None => {},
        }
    }
    while k < len
        invariant
            doc.wf(),
            (i as int) < doc.store@.len(),
            level as int + fuel as int <= usize::MAX,
            k <= len,
            len == doc.store@[i as int].children@.len(),
            base == old(out)@,
            baselen == base.len() as int,
            base.is_prefix_of(out@),
            spec0 == ser_children_spec(
                *doc,
                *opts,
                i as int,
                0,
                level as nat,
                pending,
                fuel as nat,
            ),
            (match ser_children_spec(
                *doc,
                *opts,
                i as int,
                k as int,
                level as nat,
                pend,
                fuel as nat,
            ) {
                Some((t2, p2)) => spec0 == Some::<(Seq<char>, bool)>(
                    (out@.skip(baselen) + t2, p2),
                ),
                None => spec0 is None,
            }),
        decreases len - k,
    {
        let ghost pre = out@;
        let ghost pend_in = pend;
        match &doc.store[i].children[k] {
            Node::Text(t) => {
                write_escaped(out, t.as_str());
                pend = false;
            },
            Node::CData(t) => {
                write_cdata_node(out, t.as_str());
                pend = false;
            },
            Node::Comment(t) => {
                write_comment_node(out, pend, opts, level, t.as_str());
                pend = true;
            },
            Node::PI(t) => {
                write_pi_node(out, pend, opts, level, t.as_str());
                pend = true;
            },
            Node::DocType(t) => {
                write_doctype_node(out, pend, opts, level, t.as_str());
                pend = true;
            },
            Node::Element(e) => {
                proof {
                    assert(doc.child_ok(i as int, k as int));
                }
                match write_element_node(doc, opts, e.id, level, pend, fuel, out) {
                    Ok(p) => {
                        pend = p;
                    },
                    Err(err) => {
                        return Err(err);
                    },
                }
            },
        }
        proof {
            // The executed branch appended exactly the spec step for this
            // child and left the step's line-break flag in `pend`.
            let stepspec: Option<(Seq<char>, bool)> = match doc.store@[i as int].children@[k as int] {
                Node::Text(t) => Some((crate::utils::encoding::escape_spec(t@), false)),
                Node::CData(t) => Some(
                    (
                        seq!['<', '!', '[', 'C', 'D', 'A', 'T', 'A', '['] + t@ + seq![']', ']', '>'],
                        false,
                    ),
                ),
                Node::Comment(t) => Some(
                    (
                        break_spec(pend_in, *opts, level as nat) + seq!['<', '!', '-', '-'] + t@
                            + seq!['-', '-', '>'],
                        true,
                    ),
                ),
                Node::PI(t) => Some(
                    (
                        break_spec(pend_in, *opts, level as nat) + seq!['<', '?'] + t@ + seq!['?', '>'],
                        true,
                    ),
                ),
                Node::DocType(t) => Some(
                    (
                        break_spec(pend_in, *opts, level as nat)
                            + seq!['<', '!', 'D', 'O', 'C', 'T', 'Y', 'P', 'E', ' '] + t@ + seq!['>'],
                        true,
                    ),
                ),
                Node::Element(e) => ser_element_spec(
                    *doc,
                    *opts,
                    e.id as int,
                    level as nat,
                    pend_in,
                    fuel as nat,
                ),
            };
            match stepspec {
                Some((t1, p1)) => {
                    assert(out@ =~= pre + t1);
                    assert(pend == p1);
                    assert(out@.skip(baselen) =~= pre.skip(baselen) + t1);
                    match ser_children_spec(
                        *doc,
                        *opts,
                        i as int,
                        k + 1,
                        level as nat,
                        p1,
                        fuel as nat,
                    ) {
                        Some((t2, p2)) => {
                            assert(pre.skip(baselen) + (t1 + t2) =~= out@.skip(baselen) + t2);
                        },
                        None => {},
                    }
                },
                None => {
                    assert(false);
                },
            }
        }
        k += 1;
    }
    proof {
        match spec0 {
            Some((text, p2)) => {
                assert(out@.skip(baselen) + Seq::<char>::empty() =~= out@.skip(baselen));
                assert(base + out@.skip(baselen) =~= out@);
            },
            None => {},
        }
    }
    Ok(pend)
}

/// Serialization entry points; the XML is written in UTF-8.
impl Document {
    /// Serializes the document to a string with the given options.
    #[verifier::rlimit(100)]
    pub fn write_str_with_opts(&self, opts: WriteOptions) -> (r: Result<String, EditXMLError>)
        requires
            self.wf(),
        ensures
            (match ser_doc_spec(*self, opts) {
                Some(text) => (r matches Ok(s) && s@ == text),
                None => (r matches Err(e) && e matches EditXMLError::MalformedXML(
                    MalformedReason::GenericMalformedTree,
                )),
            }),
    {
        let mut out: Vec<char> = Vec::new();
        if opts.write_decl {
            out.push('<');
            out.push('?');
            out.push('x');
            out.push('m');
            out.push('l');
            out.push(' ');
            out.push('v');
            out.push('e');
            out.push('r');
            out.push('s');
            out.push('i');
            out.push('o');
            out.push('n');
            out.push('=');
            out.push('"');
            crate::utils::push_chars(&mut out, self.version.as_str());
            out.push('"');
            out.push(' ');
            out.push('e');
            out.push('n');
            out.push('c');
            out.push('o');
            out.push('d');
            out.push('i');
            out.push('n');
            out.push('g');
            out.push('=');
            out.push('"');
            out.push('U');
            out.push('T');
            out.push('F');
            out.push('-');
            out.push('8');
            out.push('"');
            match self.standalone {
                Some(v) => {
                    out.push(' ');
                    out.push('s');
                    out.push('t');
                    out.push('a');
                    out.push('n');
                    out.push('d');
                    out.push('a');
                    out.push('l');
                    out.push('o');
                    out.push('n');
                    out.push('e');
                    out.push('=');
                    out.push('"');
                    if v.is_standalone() {
                        out.push('y');
                        out.push('e');
                        out.push('s');
                    } else {
                        out.push('n');
                        out.push('o');
                    }
                    out.push('"');
                },
                None => {},
            }
            out.push('?');
            out.push('>');
            proof {
                assert(out@ =~= ser_decl_spec(self.version@, self.standalone));
            }
        }
        let ghost head = out@;
        match write_children(self, &opts, 0, 0, pending_after_decl(opts), self.store.len(), &mut out) {
            Ok(_) => {
                proof {
                    match ser_children_spec(
                        *self,
                        opts,
                        0,
                        0,
                        0,
                        opts.write_decl,
                        self.store@.len() as nat,
                    ) {
                        Some((body, p)) => {
                            assert(out@ =~= head + body);
                        },
                        None => {
                            assert(false);
                        },
                    }
                }
                Ok(crate::utils::chars_to_string(&out))
            },
            Err(err) => Err(err),
        }
    }

    /// Serializes the document to a string with the default options.
    pub fn write_str(&self) -> (r: Result<String, EditXMLError>)
        requires
            self.wf(),
        ensures
            (match ser_doc_spec(*self, WriteOptions { indent_char: 32, indent_size: 2, write_decl: true }) {
                Some(text) => (r matches Ok(s) && s@ == text),
                None => (r matches Err(e) && e matches EditXMLError::MalformedXML(
                    MalformedReason::GenericMalformedTree,
                )),
            }),
    {
        self.write_str_with_opts(WriteOptions::default())
    }
}

/// The line-break flag after the optional declaration: a break is owed
/// exactly when a declaration was written.
fn pending_after_decl(opts: WriteOptions) -> (r: bool)
    ensures
        r == opts.write_decl,
{
    opts.write_decl
}

} // verus!
