//! The event-driven parser: reads typed tokenizer events and builds the
//! arena tree, applying declaration handling, attribute and namespace
//! splitting, and the whitespace and text policy.

use crate::decoding::{
    canonical_encoding_label, decode_bytes, sniff_encoding, sniff_spec, Utf16Kind,
};
use crate::document::Document;
use crate::element::{
    doc_meta_same, store_updated, Element,
};
use crate::error::{DecodeError, EditXMLError, MalformedReason};
use crate::node::Node;
use crate::tokenizer::{
    event_attr_at, event_attr_count, event_decl_parts, event_kind, event_start_name, event_text,
    plain_of, reader_events, tokenize, tokenizer_new, tokenizer_next, tokenizer_position,
    xml_event_kind, EventKind,
};
use crate::types::compare_str;
use crate::utils::encoding::{
    attr_value_spec, resolve_entity_spec, strip_leading_space_spec, unescape_attr_value,
    unescape_spec, unescape_with,
};
use vstd::prelude::*;

verus! {

/// Initial capacities used while parsing; these affect allocation only,
/// never the result.
#[derive(Debug, Clone, Copy, PartialEq, Eq, Structural)]
pub struct ReadOptionsOptimizations {
    pub reader_stack_initial_capacity: usize,
    pub document_initial_capacity: usize,
    pub attribute_initial_capacity: usize,
    pub namespace_initial_capacity: usize,
    pub children_initial_capacity: usize,
    pub parse_content_buffer_initial_capacity: usize,
}

impl Default for ReadOptionsOptimizations {
    fn default() -> (r: Self)
        ensures
            r.reader_stack_initial_capacity == 10,
            r.document_initial_capacity == 100,
            r.attribute_initial_capacity == 20,
            r.namespace_initial_capacity == 20,
            r.children_initial_capacity == 1,
            r.parse_content_buffer_initial_capacity == 512,
    {
        ReadOptionsOptimizations {
            reader_stack_initial_capacity: 10,
            document_initial_capacity: 100,
            attribute_initial_capacity: 20,
            namespace_initial_capacity: 20,
            children_initial_capacity: 1,
            parse_content_buffer_initial_capacity: 512,
        }
    }
}

/// Options when parsing XML.
#[derive(Debug, Clone)]
pub struct ReadOptions {
    /// Whether `<tag></tag>` gets an empty text child, so it stays
    /// distinguishable from `<tag />`.
    pub empty_text_node: bool,
    /// Whether the tokenizer trims leading and trailing whitespace from
    /// text runs.
    pub trim_text: bool,
    /// Whether text nodes holding only whitespace are dropped.
    pub ignore_whitespace_only: bool,
    /// Whether a document that does not begin with an XML declaration is
    /// rejected.
    pub require_decl: bool,
    /// An encoding label to start reading with, before any declaration
    /// is seen.
    pub encoding: Option<String>,
    /// Whether attribute values get the XML whitespace normalization
    /// applied before unescaping.
    pub normalize_attribute_value_space: bool,
    /// Allocation tuning.
    pub optimizations: ReadOptionsOptimizations,
}

/// The default capacities.
pub open spec fn default_optimizations() -> ReadOptionsOptimizations {
    ReadOptionsOptimizations {
        reader_stack_initial_capacity: 10,
        document_initial_capacity: 100,
        attribute_initial_capacity: 20,
        namespace_initial_capacity: 20,
        children_initial_capacity: 1,
        parse_content_buffer_initial_capacity: 512,
    }
}

/// The default options: empty text nodes kept, text trimmed, a
/// declaration required.
pub open spec fn default_read_options() -> ReadOptions {
    ReadOptions {
        empty_text_node: true,
        trim_text: true,
        ignore_whitespace_only: false,
        require_decl: true,
        encoding: None,
        normalize_attribute_value_space: false,
        optimizations: default_optimizations(),
    }
}

/// The relaxed options: as the default, but whitespace-only text is
/// ignored and no declaration is required.
pub open spec fn relaxed_read_options() -> ReadOptions {
    ReadOptions {
        empty_text_node: true,
        trim_text: true,
        ignore_whitespace_only: true,
        require_decl: false,
        encoding: None,
        normalize_attribute_value_space: false,
        optimizations: default_optimizations(),
    }
}

impl ReadOptions {
    /// Relaxed options: like the default, but whitespace-only text is
    /// ignored and no declaration is required.
    pub fn relaxed() -> (r: Self)
        ensures
            r == relaxed_read_options(),
    {
        ReadOptions {
            empty_text_node: true,
            trim_text: true,
            ignore_whitespace_only: true,
            require_decl: false,
            encoding: None,
            normalize_attribute_value_space: false,
            optimizations: ReadOptionsOptimizations::default(),
        }
    }
}

impl Default for ReadOptions {
    /// The default options: empty text nodes kept, text trimmed, a
    /// declaration required.
    fn default() -> (r: Self)
        ensures
            r == default_read_options(),
    {
        ReadOptions {
            empty_text_node: true,
            trim_text: true,
            ignore_whitespace_only: false,
            require_decl: true,
            encoding: None,
            normalize_attribute_value_space: false,
            optimizations: ReadOptionsOptimizations::default(),
        }
    }
}

/// One tokenizer event, reduced to plain values.
#[derive(Debug, Clone)]
pub enum XmlEvent {
    /// An XML declaration with its raw parts.
    Decl { version: String, encoding: Option<String>, standalone: Option<String> },
    /// A start tag with its raw attribute pairs, values still escaped.
    Start { name: String, attrs: Vec<(String, String)> },
    /// An empty-element tag.
    Empty { name: String, attrs: Vec<(String, String)> },
    /// An end tag; tag-name matching is the tokenizer's business.
    End,
    /// A text run; the tokenizer splits general references out of it.
    Text(String),
    /// A CDATA section, taken verbatim.
    CData(String),
    /// A comment, taken verbatim.
    Comment(String),
    /// A processing instruction, taken verbatim.
    PI(String),
    /// A doctype declaration, still escaped.
    DocType(String),
    /// A general `&...;` reference from inside text, the part between
    /// `&` and `;`.
    GeneralRef(String),
    /// End of input.
    Eof,
}

/// The two optional strings read the same.
pub open spec fn opt_str_view_eq(a: Option<String>, b: Option<String>) -> bool {
    match (a, b) {
        (Some(x), Some(y)) => x@ == y@,
        (None, None) => true,
        _ => false,
    }
}

/// The two events are the same event up to string identity: the same
/// variant, and every name, attribute pair and payload reads the same.
pub open spec fn xml_event_matches(a: XmlEvent, b: XmlEvent) -> bool {
    match (a, b) {
        (
            XmlEvent::Decl { version: v1, encoding: e1, standalone: s1 },
            XmlEvent::Decl { version: v2, encoding: e2, standalone: s2 },
        ) => v1@ == v2@ && opt_str_view_eq(e1, e2) && opt_str_view_eq(s1, s2),
        (
            XmlEvent::Start { name: n1, attrs: a1 },
            XmlEvent::Start { name: n2, attrs: a2 },
        ) => n1@ == n2@ && pairs_view(a1@) == pairs_view(a2@),
        (
            XmlEvent::Empty { name: n1, attrs: a1 },
            XmlEvent::Empty { name: n2, attrs: a2 },
        ) => n1@ == n2@ && pairs_view(a1@) == pairs_view(a2@),
        (XmlEvent::End, XmlEvent::End) => true,
        (XmlEvent::Text(t1), XmlEvent::Text(t2)) => t1@ == t2@,
        (XmlEvent::CData(t1), XmlEvent::CData(t2)) => t1@ == t2@,
        (XmlEvent::Comment(t1), XmlEvent::Comment(t2)) => t1@ == t2@,
        (XmlEvent::PI(t1), XmlEvent::PI(t2)) => t1@ == t2@,
        (XmlEvent::DocType(t1), XmlEvent::DocType(t2)) => t1@ == t2@,
        (XmlEvent::GeneralRef(t1), XmlEvent::GeneralRef(t2)) => t1@ == t2@,
        (XmlEvent::Eof, XmlEvent::Eof) => true,
        _ => false,
    }
}

/// The views of an association list's pairs.
pub open spec fn pairs_view(s: Seq<(String, String)>) -> Seq<(Seq<char>, Seq<char>)> {
    s.map_values(|p: (String, String)| (p.0@, p.1@))
}

/// The position of the first pair with the given key, over views.
pub open spec fn assoc_index_v(s: Seq<(Seq<char>, Seq<char>)>, key: Seq<char>, from: int) -> Option<
    int,
>
    decreases s.len() - from,
{
    if from >= s.len() {
        None
    } else if s[from].0 == key {
        Some(from)
    } else {
        assoc_index_v(s, key, from + 1)
    }
}

/// Storing a value under a key, over views: the first pair with that key
/// gets the new value, or a new pair is appended.
pub open spec fn assoc_put_v(
    s: Seq<(Seq<char>, Seq<char>)>,
    key: Seq<char>,
    val: Seq<char>,
) -> Seq<(Seq<char>, Seq<char>)> {
    match assoc_index_v(s, key, 0) {
        Some(j) => s.update(j, (s[j].0, val)),
        None => s.push((key, val)),
    }
}

proof fn lemma_assoc_index_views(s: Seq<(String, String)>, key: Seq<char>, from: int)
    requires
        0 <= from,
    ensures
        crate::element::assoc_index(s, key, from) == assoc_index_v(pairs_view(s), key, from),
    decreases s.len() - from,
{
    if from < s.len() {
        assert(pairs_view(s)[from] == (s[from].0@, s[from].1@));
        if s[from].0@ != key {
            lemma_assoc_index_views(s, key, from + 1);
        }
    }
}

proof fn lemma_assoc_index_range(s: Seq<(String, String)>, key: Seq<char>, from: int)
    requires
        0 <= from,
    ensures
        (crate::element::assoc_index(s, key, from) matches Some(j) ==> from <= j < s.len()
            && s[j].0@ == key),
    decreases s.len() - from,
{
    if from < s.len() && s[from].0@ != key {
        lemma_assoc_index_range(s, key, from + 1);
    }
}

/// The exec-level association put agrees with the view-level one.
proof fn lemma_assoc_put_views(s: Seq<(String, String)>, key: String, val: String)
    ensures
        pairs_view(crate::element::assoc_put_spec(s, key, val)) == assoc_put_v(
            pairs_view(s),
            key@,
            val@,
        ),
{
    lemma_assoc_index_views(s, key@, 0);
    lemma_assoc_index_range(s, key@, 0);
    match crate::element::assoc_index(s, key@, 0) {
        Some(j) => {
            assert(pairs_view(s)[j] == (s[j].0@, s[j].1@));
            assert(pairs_view(crate::element::assoc_put_spec(s, key, val)) =~= assoc_put_v(
                pairs_view(s),
                key@,
                val@,
            ));
        },
        None => {
            assert(pairs_view(crate::element::assoc_put_spec(s, key, val)) =~= assoc_put_v(
                pairs_view(s),
                key@,
                val@,
            ));
        },
    }
}

/// The bare `xmlns` attribute name.
pub open spec fn xmlns_chars() -> Seq<char> {
    seq!['x', 'm', 'l', 'n', 's']
}

/// The `xmlns:` attribute-name prefix.
pub open spec fn xmlns_colon_chars() -> Seq<char> {
    seq!['x', 'm', 'l', 'n', 's', ':']
}

/// How a start tag's raw attribute pairs split into ordinary attributes
/// and namespace declarations, with values normalized (when asked) and
/// unescaped: a name of exactly `xmlns` declares the default namespace,
/// a name beginning `xmlns:` declares the prefix after the colon, and
/// everything else is an ordinary attribute.  Later pairs with the same
/// key overwrite earlier ones.
pub open spec fn split_attrs_spec(
    pairs: Seq<(Seq<char>, Seq<char>)>,
    from: int,
    normalize: bool,
    acc_a: Seq<(Seq<char>, Seq<char>)>,
    acc_n: Seq<(Seq<char>, Seq<char>)>,
) -> Result<(Seq<(Seq<char>, Seq<char>)>, Seq<(Seq<char>, Seq<char>)>), crate::error::EscapeError>
    decreases pairs.len() - from,
{
    if from < 0 || from >= pairs.len() {
        Ok((acc_a, acc_n))
    } else {
        let key = pairs[from].0;
        match attr_value_spec(pairs[from].1, normalize) {
            Err(e) => Err(e),
            Ok(val) => if key == xmlns_chars() {
                split_attrs_spec(
                    pairs,
                    from + 1,
                    normalize,
                    acc_a,
                    assoc_put_v(acc_n, Seq::<char>::empty(), val),
                )
            } else if key.len() >= 6 && key.take(6) == xmlns_colon_chars() {
                split_attrs_spec(
                    pairs,
                    from + 1,
                    normalize,
                    acc_a,
                    assoc_put_v(acc_n, key.skip(6), val),
                )
            } else {
                split_attrs_spec(pairs, from + 1, normalize, assoc_put_v(acc_a, key, val), acc_n)
            },
        }
    }
}

/// Splits raw attribute pairs into ordinary attributes and namespace
/// declarations, unescaping the values.
fn element_attributes(opts: &ReadOptions, attrs: &Vec<(String, String)>) -> (r: Result<
    (Vec<(String, String)>, Vec<(String, String)>),
    EditXMLError,
>)
    ensures
        (match split_attrs_spec(
            pairs_view(attrs@),
            0,
            opts.normalize_attribute_value_space,
            Seq::<(Seq<char>, Seq<char>)>::empty(),
            Seq::<(Seq<char>, Seq<char>)>::empty(),
        ) {
            Ok((a, n)) => (r matches Ok(out) && pairs_view(out.0@) == a && pairs_view(out.1@)
                == n),
            Err(e) => (r matches Err(err) && err == EditXMLError::CannotDecode(
                DecodeError::EscapeError(e),
            )),
        }),
{
    let normalize = opts.normalize_attribute_value_space;
    let count = attrs.len();
    let mut out_a: Vec<(String, String)> = Vec::new();
    let mut out_n: Vec<(String, String)> = Vec::new();
    let mut idx: usize = 0;
    proof {
        assert(pairs_view(out_a@) =~= Seq::<(Seq<char>, Seq<char>)>::empty());
        assert(pairs_view(out_n@) =~= Seq::<(Seq<char>, Seq<char>)>::empty());
    }
    while idx < count
        invariant
            idx <= count,
            count == attrs@.len(),
            normalize == opts.normalize_attribute_value_space,
            split_attrs_spec(
                pairs_view(attrs@),
                0,
                normalize,
                Seq::<(Seq<char>, Seq<char>)>::empty(),
                Seq::<(Seq<char>, Seq<char>)>::empty(),
            ) == split_attrs_spec(
                pairs_view(attrs@),
                idx as int,
                normalize,
                pairs_view(out_a@),
                pairs_view(out_n@),
            ),
        decreases count - idx,
    {
        proof {
            assert(pairs_view(attrs@)[idx as int] == (attrs@[idx as int].0@, attrs@[
                idx as int].1@));
        }
        let key = attrs[idx].0.clone();
        let rawval = attrs[idx].1.clone();
        match unescape_attr_value(rawval.as_str(), normalize) {
            Err(e) => {
                return Err(EditXMLError::CannotDecode(DecodeError::EscapeError(e)));
            },
            Ok(val) => {
                let kchars = crate::utils::str_to_chars(key.as_str());
                let is_bare_xmlns = kchars.len() == 5 && kchars[0] == 'x' && kchars[1] == 'm'
                    && kchars[2] == 'l' && kchars[3] == 'n' && kchars[4] == 's';
                let is_prefixed_xmlns = kchars.len() >= 6 && kchars[0] == 'x' && kchars[1] == 'm'
                    && kchars[2] == 'l' && kchars[3] == 'n' && kchars[4] == 's' && kchars[5]
                    == ':';
                proof {
                    if is_bare_xmlns {
                        assert(key@ =~= xmlns_chars());
                    } else {
                        assert(key@ != xmlns_chars());
                    }
                    if is_prefixed_xmlns {
                        assert(key@.take(6) =~= xmlns_colon_chars());
                    } else if key@.len() >= 6 {
                        assert(key@.take(6) != xmlns_colon_chars()) by {
                            if key@.take(6) == xmlns_colon_chars() {
                                assert(key@[0] == 'x' && key@[1] == 'm' && key@[2] == 'l' && key@[3]
                                    == 'n' && key@[4] == 's' && key@[5] == ':');
                            }
                        }
                    }
                }
                if is_bare_xmlns {
                    let empty_key = String::new();
                    proof {
                        lemma_assoc_put_views(out_n@, empty_key, val);
                    }
                    crate::element::assoc_put(&mut out_n, empty_key, val);
                } else if is_prefixed_xmlns {
                    let klen = key.as_str().unicode_len();
                    let local = String::from_str(key.as_str().substring_char(6, klen));
                    proof {
                        assert(local@ =~= key@.skip(6));
                        lemma_assoc_put_views(out_n@, local, val);
                    }
                    crate::element::assoc_put(&mut out_n, local, val);
                } else {
                    proof {
                        lemma_assoc_put_views(out_a@, key, val);
                    }
                    crate::element::assoc_put(&mut out_a, key, val);
                }
            },
        }
        idx += 1;
    }
    Ok((out_a, out_n))
}

/// The canonical name of UTF-8.
pub open spec fn utf8_name_chars() -> Seq<char> {
    seq!['U', 'T', 'F', '-', '8']
}

/// The parser: the document being built, the options, the encoding the
/// declaration named, and the stack of open elements.
pub struct DocumentParser {
    /// The document under construction.
    pub doc: Document,
    /// The options in force.
    pub read_opts: ReadOptions,
    /// The canonical name of the encoding the declaration named, absent
    /// for UTF-8.
    pub encoding: Option<String>,
    /// The open elements, outermost first; the container sits at the
    /// bottom.
    pub element_stack: Vec<Element>,
}

/// Every handle on the element stack points into the document's store.
pub open spec fn stack_valid(p: DocumentParser) -> bool {
    forall|k: int|
        0 <= k < p.element_stack@.len() ==> (#[trigger] p.element_stack@[k]).id
            < p.doc.store@.len()
}

/// The options and declared encoding are unchanged between two states.
pub open spec fn same_opts(pre: DocumentParser, post: DocumentParser) -> bool {
    &&& post.read_opts == pre.read_opts
    &&& post.encoding == pre.encoding
}

/// The result is the malformed-tree error, reported when the element
/// stack is in an impossible state.
pub open spec fn is_tree_err<T>(r: Result<T, EditXMLError>) -> bool {
    r matches Err(e) && e matches EditXMLError::MalformedXML(
        MalformedReason::GenericMalformedTree,
    )
}

/// `post` is `pre` with `node` appended to the children of the element
/// on top of the stack, and nothing else changed.
pub open spec fn pushed_node(pre: DocumentParser, post: DocumentParser, node: Node) -> bool {
    &&& pre.element_stack@.len() >= 1
    &&& store_updated(
        pre.doc.store@,
        post.doc.store@,
        -1,
        None,
        pre.element_stack@.last().id as int,
        pre.doc.store@[pre.element_stack@.last().id as int].children@.push(node),
    )
    &&& doc_meta_same(pre.doc, post.doc)
    &&& post.element_stack == pre.element_stack
    &&& same_opts(pre, post)
}

/// `post` is `pre` with a text node reading `content` appended to the
/// children of the element on top of the stack.
pub open spec fn pushed_text_node(
    pre: DocumentParser,
    post: DocumentParser,
    content: Seq<char>,
) -> bool {
    exists|s: String| (#[trigger] s@) == content && pushed_node(pre, post, Node::Text(s))
}

/// `post` is `pre` with a doctype node reading `content` appended to the
/// children of the element on top of the stack.
pub open spec fn pushed_doctype_node(
    pre: DocumentParser,
    post: DocumentParser,
    content: Seq<char>,
) -> bool {
    exists|s: String| (#[trigger] s@) == content && pushed_node(pre, post, Node::DocType(s))
}

/// `post` is `pre` with a new element record appended: named `name`,
/// with the split attributes and namespace declarations, attached as the
/// last child of the element on top of the stack, and pushed onto the
/// stack itself exactly when `on_stack` holds.
pub open spec fn new_element_added(
    pre: DocumentParser,
    post: DocumentParser,
    name: Seq<char>,
    attrs_a: Seq<(Seq<char>, Seq<char>)>,
    attrs_n: Seq<(Seq<char>, Seq<char>)>,
    on_stack: bool,
) -> bool {
    let n = pre.doc.store@.len() as int;
    let top = pre.element_stack@.last();
    let new_elem = Element { id: n as usize };
    &&& pre.element_stack@.len() >= 1
    &&& post.doc.store@.len() == n + 1
    &&& forall|i: int|
        0 <= i < n && i != top.id as int ==> post.doc.store@[i] == pre.doc.store@[i]
    &&& post.doc.store@[top.id as int].full_name == pre.doc.store@[top.id as int].full_name
    &&& post.doc.store@[top.id as int].attributes == pre.doc.store@[top.id as int].attributes
    &&& post.doc.store@[top.id as int].namespace_decls == pre.doc.store@[top.id as int].namespace_decls
    &&& post.doc.store@[top.id as int].parent == pre.doc.store@[top.id as int].parent
    &&& post.doc.store@[top.id as int].children@ == pre.doc.store@[top.id as int].children@.push(
        Node::Element(new_elem),
    )
    &&& post.doc.store@[n].full_name@ == name
    &&& pairs_view(post.doc.store@[n].attributes@) == attrs_a
    &&& pairs_view(post.doc.store@[n].namespace_decls@) == attrs_n
    &&& post.doc.store@[n].parent == Some(top)
    &&& post.doc.store@[n].children@.len() == 0
    &&& post.doc.counter == pre.doc.counter + 1
    &&& post.doc.container == pre.doc.container
    &&& post.doc.version == pre.doc.version
    &&& post.doc.standalone == pre.doc.standalone
    &&& post.element_stack@ == (if on_stack {
        pre.element_stack@.push(new_elem)
    } else {
        pre.element_stack@
    })
    &&& same_opts(pre, post)
}

/// `post` is `pre` with the top of the stack popped; when the popped
/// element has no children and the option asks for it, a single empty
/// text child is added so that `<a></a>` stays distinguishable from
/// `<a />` after a round trip.
pub open spec fn end_handled(pre: DocumentParser, post: DocumentParser) -> bool {
    let popped = pre.element_stack@.last();
    &&& pre.element_stack@.len() >= 1
    &&& post.element_stack@ == pre.element_stack@.drop_last()
    &&& (if pre.read_opts.empty_text_node && pre.doc.store@[popped.id as int].children@.len()
        == 0 {
        exists|s: String|
            (#[trigger] s@).len() == 0 && store_updated(
                pre.doc.store@,
                post.doc.store@,
                -1,
                None,
                popped.id as int,
                pre.doc.store@[popped.id as int].children@.push(Node::Text(s)),
            ) && doc_meta_same(pre.doc, post.doc)
    } else {
        post.doc == pre.doc
    })
    &&& same_opts(pre, post)
}

/// The standalone flag of the declaration was recorded: `yes` or `no`
/// in any ASCII case is stored, anything else is rejected and leaves the
/// flag alone.
pub open spec fn standalone_recorded(
    pre: DocumentParser,
    standalone: Option<String>,
    post: DocumentParser,
    r: Result<(), EditXMLError>,
) -> bool {
    match standalone {
        None => post.doc.standalone is None && r == Ok::<(), EditXMLError>(()),
        Some(sv) => if crate::types::is_yes_value(sv@) {
            post.doc.standalone == Some(crate::types::StandaloneValue::Yes) && r == Ok::<
                (),
                EditXMLError,
            >(())
        } else if crate::types::is_no_value(sv@) {
            post.doc.standalone == Some(crate::types::StandaloneValue::No) && r == Ok::<
                (),
                EditXMLError,
            >(())
        } else {
            r == Err::<(), EditXMLError>(
                EditXMLError::MalformedXML(MalformedReason::InvalidStandAloneValue),
            ) && post.doc.standalone == pre.doc.standalone
        },
    }
}

/// How one event moves the parser from `pre` to `post` with result `r`:
/// the event-handling rules of the builder state machine, one case per
/// event kind.
#[verifier::opaque]
pub open spec fn handle_event_spec(
    pre: DocumentParser,
    ev: XmlEvent,
    post: DocumentParser,
    r: Result<bool, EditXMLError>,
) -> bool {
    match ev {
        XmlEvent::Eof => post == pre && r == Ok::<bool, EditXMLError>(true),
        XmlEvent::Decl { .. } => post == pre && (r matches Err(e) && e matches
            EditXMLError::MalformedXML(MalformedReason::UnexpectedItem(s)) && s@
            == "XML Declaration"@),
        XmlEvent::Text(t) => if pre.read_opts.ignore_whitespace_only && (forall|i: int|
            0 <= i < t@.len() ==> crate::utils::is_ws_char(t@[i]))
        {
            post == pre && r == Ok::<bool, EditXMLError>(false)
        } else if t@.len() == 0 {
            post == pre && r == Ok::<bool, EditXMLError>(false)
        } else {
            match unescape_spec(t@, false) {
                Err(e) => post == pre && r == Err::<bool, EditXMLError>(
                    EditXMLError::CannotDecode(DecodeError::EscapeError(e)),
                ),
                Ok(content) => if pre.element_stack@.len() == 0 {
                    post == pre && is_tree_err(r)
                } else {
                    pushed_text_node(pre, post, content) && r == Ok::<bool, EditXMLError>(false)
                },
            }
        },
        XmlEvent::GeneralRef(t) => match resolve_entity_spec(t@, false) {
            Err(e) => post == pre && r == Err::<bool, EditXMLError>(
                EditXMLError::CannotDecode(DecodeError::EscapeError(e)),
            ),
            Ok(rep) => if pre.element_stack@.len() == 0 {
                post == pre && is_tree_err(r)
            } else {
                pushed_text_node(pre, post, rep) && r == Ok::<bool, EditXMLError>(false)
            },
        },
        XmlEvent::CData(t) => if pre.element_stack@.len() == 0 {
            post == pre && is_tree_err(r)
        } else {
            pushed_node(pre, post, Node::CData(t)) && r == Ok::<bool, EditXMLError>(false)
        },
        XmlEvent::Comment(t) => if pre.element_stack@.len() == 0 {
            post == pre && is_tree_err(r)
        } else {
            pushed_node(pre, post, Node::Comment(t)) && r == Ok::<bool, EditXMLError>(false)
        },
        XmlEvent::PI(t) => if pre.element_stack@.len() == 0 {
            post == pre && is_tree_err(r)
        } else {
            pushed_node(pre, post, Node::PI(t)) && r == Ok::<bool, EditXMLError>(false)
        },
        XmlEvent::DocType(t) => match unescape_spec(t@, false) {
            Err(e) => post == pre && r == Err::<bool, EditXMLError>(
                EditXMLError::CannotDecode(DecodeError::EscapeError(e)),
            ),
            Ok(u) => if pre.element_stack@.len() == 0 {
                post == pre && is_tree_err(r)
            } else {
                pushed_doctype_node(pre, post, strip_leading_space_spec(u)) && r == Ok::<
                    bool,
                    EditXMLError,
                >(false)
            },
        },
        XmlEvent::Start { name, attrs } => if pre.element_stack@.len() == 0 {
            post == pre && is_tree_err(r)
        } else if pre.doc.store@.len() >= usize::MAX {
            post == pre && is_tree_err(r)
        } else {
            match split_attrs_spec(
                pairs_view(attrs@),
                0,
                pre.read_opts.normalize_attribute_value_space,
                Seq::<(Seq<char>, Seq<char>)>::empty(),
                Seq::<(Seq<char>, Seq<char>)>::empty(),
            ) {
                Err(e) => post == pre && r == Err::<bool, EditXMLError>(
                    EditXMLError::CannotDecode(DecodeError::EscapeError(e)),
                ),
                Ok((a, n)) => new_element_added(pre, post, name@, a, n, true) && r == Ok::<
                    bool,
                    EditXMLError,
                >(false),
            }
        },
        XmlEvent::Empty { name, attrs } => if pre.element_stack@.len() == 0 {
            post == pre && is_tree_err(r)
        } else if pre.doc.store@.len() >= usize::MAX {
            post == pre && is_tree_err(r)
        } else {
            match split_attrs_spec(
                pairs_view(attrs@),
                0,
                pre.read_opts.normalize_attribute_value_space,
                Seq::<(Seq<char>, Seq<char>)>::empty(),
                Seq::<(Seq<char>, Seq<char>)>::empty(),
            ) {
                Err(e) => post == pre && r == Err::<bool, EditXMLError>(
                    EditXMLError::CannotDecode(DecodeError::EscapeError(e)),
                ),
                Ok((a, n)) => new_element_added(pre, post, name@, a, n, false) && r == Ok::<
                    bool,
                    EditXMLError,
                >(false),
            }
        },
        XmlEvent::End => if pre.element_stack@.len() == 0 {
            post == pre && is_tree_err(r)
        } else {
            end_handled(pre, post) && r == Ok::<bool, EditXMLError>(false)
        },
    }
}

/// The first `k` events of `actual` read the same as those of `evs`.
pub open spec fn matching_to(evs: Seq<XmlEvent>, actual: Seq<XmlEvent>, k: int) -> bool {
    forall|i: int| 0 <= i < k ==> xml_event_matches(#[trigger] actual[i], evs[i])
}

/// What a content run from `pre` over the tokenizer stream `evs` with a
/// step budget of `bound` yields: the run follows events that read the
/// same as the stream until one ends it; a run that consumes the whole
/// stream is out of the model's sight from then on; a run that uses up
/// its budget is a malformed tree; and an error the tokenizer itself
/// reported is passed through.
pub open spec fn content_outcome(
    pre: DocumentParser,
    evs: Seq<XmlEvent>,
    bound: int,
    r: Result<Document, EditXMLError>,
) -> bool {
    ||| exists|
        actual: Seq<XmlEvent>,
        states: Seq<DocumentParser>,
        k: int,
        aev: XmlEvent,
        fin: DocumentParser,
    |
        #![trigger chain_ok(pre, actual, states, k), run_ends(states[k], aev, fin, r)]
        0 <= k < bound && k < evs.len() && chain_ok(pre, actual, states, k) && matching_to(
            evs,
            actual,
            k,
        ) && xml_event_matches(aev, evs[k]) && run_ends(states[k], aev, fin, r)
    ||| exists|actual: Seq<XmlEvent>, states: Seq<DocumentParser>|
        #![trigger chain_ok(pre, actual, states, evs.len() as int)]
        chain_ok(pre, actual, states, evs.len() as int) && matching_to(
            evs,
            actual,
            evs.len() as int,
        )
    ||| exists|actual: Seq<XmlEvent>, states: Seq<DocumentParser>|
        #![trigger chain_ok(pre, actual, states, bound)]
        chain_ok(pre, actual, states, bound) && matching_to(evs, actual, bound) && bound
            <= evs.len() && r == Err::<Document, EditXMLError>(
            EditXMLError::MalformedXML(MalformedReason::GenericMalformedTree),
        )
    ||| (r matches Err(e) && (e is OtherXML || e is AttrError))
}

impl DocumentParser {
    /// Handles one tokenizer event, growing the tree and moving the
    /// element stack as the event demands.  Returns true exactly when
    /// the event was the end of input.
    pub fn handle_event(&mut self, event: XmlEvent) -> (r: Result<bool, EditXMLError>)
        requires
            old(self).doc.wf(),
            stack_valid(*old(self)),
        ensures
            final(self).doc.wf(),
            stack_valid(*final(self)),
            handle_event_spec(*old(self), event, *final(self), r),
    {
        proof {
            reveal(handle_event_spec);
        }
        match event {
            XmlEvent::Eof => Ok(true),
            XmlEvent::Decl { version: _, encoding: _, standalone: _ } => Err(
                EditXMLError::MalformedXML(MalformedReason::UnexpectedItem("XML Declaration")),
            ),
            XmlEvent::Text(t) => {
                if self.read_opts.ignore_whitespace_only && crate::utils::str_only_whitespace(
                    t.as_str(),
                ) {
                    return Ok(false);
                }
                if t.as_str().is_empty() {
                    return Ok(false);
                }
                match unescape_with(t.as_str()) {
                    Err(e) => Err(EditXMLError::CannotDecode(DecodeError::EscapeError(e))),
                    Ok(content) => self.push_payload_text(content),
                }
            },
            XmlEvent::GeneralRef(t) => {
                match crate::utils::encoding::resolve_reference(t.as_str()) {
                    Err(e) => Err(EditXMLError::CannotDecode(DecodeError::EscapeError(e))),
                    Ok(content) => self.push_payload_text(content),
                }
            },
            XmlEvent::CData(t) => self.push_payload_node(Node::CData(t)),
            XmlEvent::Comment(t) => self.push_payload_node(Node::Comment(t)),
            XmlEvent::PI(t) => self.push_payload_node(Node::PI(t)),
            XmlEvent::DocType(t) => {
                match unescape_with(t.as_str()) {
                    Err(e) => Err(EditXMLError::CannotDecode(DecodeError::EscapeError(e))),
                    Ok(u) => {
                        let stripped = if u.as_str().unicode_len() > 0 && u.as_str().get_char(0)
                            == ' ' {
                            let ulen = u.as_str().unicode_len();
                            let s2 = String::from_str(u.as_str().substring_char(1, ulen));
                            proof {
                                assert(s2@ =~= u@.skip(1));
                            }
                            s2
                        } else {
                            u
                        };
                        self.push_payload_doctype(stripped)
                    },
                }
            },
            XmlEvent::Start { name, attrs } => self.create_element(name, attrs, true),
            XmlEvent::Empty { name, attrs } => self.create_element(name, attrs, false),
            XmlEvent::End => {
                if self.element_stack.len() == 0 {
                    return Err(
                        EditXMLError::MalformedXML(MalformedReason::GenericMalformedTree),
                    );
                }
                let popped = match self.element_stack.pop() {
                    Some(e) => e,
                    None => {
                        proof {
                            assert(false);
                        }
                        Element { id: 0 }
                    },
                };
                if self.read_opts.empty_text_node {
                    let childless = self.doc.store[popped.id].children.len() == 0;
                    if childless {
                        let empty_text = String::new();
                        let ghost w = empty_text;
                        match popped.push_child(&mut self.doc, Node::Text(empty_text)) {
                            Ok(()) => {},
                            Err(_) => {
                                proof {
                                    assert(false);
                                }
                            },
                        }
                        proof {
                            assert(w@.len() == 0);
                        }
                    }
                }
                Ok(false)
            },
        }
    }

    /// Records what an XML declaration carries: the version, the named
    /// encoding resolved to its canonical name (absent for UTF-8), and
    /// the standalone flag, `yes` or `no` in any ASCII case.  An unknown
    /// encoding label or any other standalone value is rejected.
    pub fn handle_decl(
        &mut self,
        version: String,
        encoding: Option<String>,
        standalone: Option<String>,
    ) -> (r: Result<(), EditXMLError>)
        ensures
            final(self).doc.store == old(self).doc.store,
            final(self).doc.counter == old(self).doc.counter,
            final(self).doc.container == old(self).doc.container,
            final(self).doc.version == version,
            final(self).element_stack == old(self).element_stack,
            final(self).read_opts == old(self).read_opts,
            (match encoding {
                None => final(self).encoding is None && standalone_recorded(
                    *old(self),
                    standalone,
                    *final(self),
                    r,
                ),
                Some(lbl) => (match crate::decoding::encoding_lookup(
                    vstd::utf8::encode_utf8(lbl@),
                ) {
                    None => r == Err::<(), EditXMLError>(
                        EditXMLError::CannotDecode(DecodeError::MissingEncoding),
                    ) && final(self).encoding == old(self).encoding && final(self).doc.standalone
                        == old(self).doc.standalone,
                    Some(name) => (match final(self).encoding {
                        Some(es) => es@ == name && name != utf8_name_chars(),
                        None => name == utf8_name_chars(),
                    }) && standalone_recorded(*old(self), standalone, *final(self), r),
                }),
            }),
    {
        self.doc.version = version;
        match encoding {
            None => {
                self.encoding = None;
            },
            Some(lbl) => {
                match canonical_encoding_label(lbl.as_str().as_bytes()) {
                    None => {
                        return Err(EditXMLError::CannotDecode(DecodeError::MissingEncoding));
                    },
                    Some(name) => {
                        let is_utf8 = name.as_str().unicode_len() == 5 && name.as_str().get_char(0)
                            == 'U' && name.as_str().get_char(1) == 'T' && name.as_str().get_char(2)
                            == 'F' && name.as_str().get_char(3) == '-' && name.as_str().get_char(4)
                            == '8';
                        proof {
                            if is_utf8 {
                                assert(name@ =~= utf8_name_chars());
                            } else {
                                assert(name@ != utf8_name_chars());
                            }
                        }
                        if is_utf8 {
                            self.encoding = None;
                        } else {
                            self.encoding = Some(name);
                        }
                    },
                }
            },
        }
        match standalone {
            None => {
                self.doc.standalone = None;
            },
            Some(sv) => {
                let n = sv.as_str().unicode_len();
                let yes = n == 3 && (sv.as_str().get_char(0) == 'y' || sv.as_str().get_char(0)
                    == 'Y') && (sv.as_str().get_char(1) == 'e' || sv.as_str().get_char(1) == 'E')
                    && (sv.as_str().get_char(2) == 's' || sv.as_str().get_char(2) == 'S');
                let no = n == 2 && (sv.as_str().get_char(0) == 'n' || sv.as_str().get_char(0)
                    == 'N') && (sv.as_str().get_char(1) == 'o' || sv.as_str().get_char(1) == 'O');
                if yes {
                    self.doc.standalone = Some(crate::types::StandaloneValue::Yes);
                } else if no {
                    self.doc.standalone = Some(crate::types::StandaloneValue::No);
                } else {
                    return Err(
                        EditXMLError::MalformedXML(MalformedReason::InvalidStandAloneValue),
                    );
                }
            },
        }
        Ok(())
    }

    /// Appends a text node with the given content under the element on
    /// top of the stack.
    fn push_payload_text(&mut self, content: String) -> (r: Result<bool, EditXMLError>)
        requires
            old(self).doc.wf(),
            stack_valid(*old(self)),
        ensures
            final(self).doc.wf(),
            stack_valid(*final(self)),
            (if old(self).element_stack@.len() == 0 {
                *final(self) == *old(self) && is_tree_err(r)
            } else {
                pushed_text_node(*old(self), *final(self), content@) && r == Ok::<
                    bool,
                    EditXMLError,
                >(false)
            }),
    {
        let ghost w = content;
        self.push_payload_node(Node::Text(content))
    }

    /// Appends a doctype node with the given content under the element
    /// on top of the stack.
    fn push_payload_doctype(&mut self, content: String) -> (r: Result<bool, EditXMLError>)
        requires
            old(self).doc.wf(),
            stack_valid(*old(self)),
        ensures
            final(self).doc.wf(),
            stack_valid(*final(self)),
            (if old(self).element_stack@.len() == 0 {
                *final(self) == *old(self) && is_tree_err(r)
            } else {
                pushed_doctype_node(*old(self), *final(self), content@) && r == Ok::<
                    bool,
                    EditXMLError,
                >(false)
            }),
    {
        let ghost w = content;
        self.push_payload_node(Node::DocType(content))
    }

    /// Appends a payload node under the element on top of the stack.
    fn push_payload_node(&mut self, node: Node) -> (r: Result<bool, EditXMLError>)
        requires
            old(self).doc.wf(),
            stack_valid(*old(self)),
            !(node is Element),
        ensures
            final(self).doc.wf(),
            stack_valid(*final(self)),
            (if old(self).element_stack@.len() == 0 {
                *final(self) == *old(self) && is_tree_err(r)
            } else {
                pushed_node(*old(self), *final(self), node) && r == Ok::<bool, EditXMLError>(
                    false,
                )
            }),
    {
        if self.element_stack.len() == 0 {
            return Err(EditXMLError::MalformedXML(MalformedReason::GenericMalformedTree));
        }
        let top = self.element_stack[self.element_stack.len() - 1];
        let ghost gnode = node;
        match top.push_child(&mut self.doc, node) {
            Ok(()) => {},
            Err(_) => {
                proof {
                    assert(false);
                }
            },
        }
        Ok(false)
    }

    /// Reads and handles tokenizer events until the end of input, an
    /// error, or `bound` events; a successful parse ends with only the
    /// container on the stack.  The result is what a content run over
    /// the reader's event stream yields.
    #[verifier::rlimit(100)]
    fn parse_content(
        &mut self,
        rd: &mut quick_xml::reader::Reader<&[u8]>,
        bound: usize,
    ) -> (r: Result<(), EditXMLError>)
        requires
            old(self).doc.wf(),
            stack_valid(*old(self)),
            bound >= 1,
        ensures
            final(self).doc.wf(),
            stack_valid(*final(self)),
            (r matches Ok(()) ==> final(self).element_stack@.len() == 1),
            (match r {
                Ok(()) => content_outcome(
                    *old(self),
                    reader_events(*old(rd)),
                    bound as int,
                    Ok(final(self).doc),
                ),
                Err(e) => content_outcome(
                    *old(self),
                    reader_events(*old(rd)),
                    bound as int,
                    Err(e),
                ),
            }),
    {
        let ghost pre = *old(self);
        let ghost evs = reader_events(*rd);
        let ghost mut actual: Seq<XmlEvent> = Seq::empty();
        let ghost mut states: Seq<DocumentParser> = seq![pre];
        let ghost mut synced: bool = true;
        let mut steps: usize = 0;
        proof {
            assert(chain_ok(pre, actual, states, 0));
            assert(evs.skip(0) =~= evs);
        }
        while steps < bound
            invariant
                self.doc.wf(),
                stack_valid(*self),
                steps <= bound,
                bound >= 1,
                pre == *old(self),
                evs == reader_events(*old(rd)),
                synced ==> (steps as int <= evs.len() && reader_events(*rd) == evs.skip(
                    steps as int,
                ) && actual.len() == steps as int && chain_ok(pre, actual, states, steps as int)
                    && states[steps as int] == *self && matching_to(evs, actual, steps as int)),
                !synced ==> (exists|a2: Seq<XmlEvent>, s2: Seq<DocumentParser>|
                    #![trigger chain_ok(pre, a2, s2, evs.len() as int)]
                    chain_ok(pre, a2, s2, evs.len() as int) && matching_to(
                        evs,
                        a2,
                        evs.len() as int,
                    )),
            decreases bound - steps,
        {
            proof {
                // Once the whole stream is consumed, the model says
                // nothing more; remember the full matching chain.
                if synced && steps as int == evs.len() {
                    assert(chain_ok(pre, actual, states, evs.len() as int));
                    assert(matching_to(evs, actual, evs.len() as int));
                    synced = false;
                }
            }
            let ghost was_synced = synced;
            let ev = match next_plain_event(rd) {
                Ok(ev) => ev,
                Err(e) => {
                    return Err(e);
                },
            };
            let ghost gev = ev;
            proof {
                if was_synced {
                    assert(evs.skip(steps as int).len() > 0);
                    assert(evs.skip(steps as int)[0] == evs[steps as int]);
                    assert(xml_event_matches(gev, evs[steps as int]));
                    assert(evs.skip(steps as int).drop_first() =~= evs.skip(steps + 1));
                }
            }
            let ghost prev = *self;
            match self.handle_event(ev) {
                Err(e) => {
                    proof {
                        if was_synced {
                            assert(run_ends(
                                states[steps as int],
                                gev,
                                *self,
                                Err::<Document, EditXMLError>(e),
                            ));
                        }
                    }
                    return Err(e);
                },
                Ok(true) => {
                    if self.element_stack.len() == 1 {
                        proof {
                            if was_synced {
                                assert(run_ends(
                                    states[steps as int],
                                    gev,
                                    *self,
                                    Ok::<Document, EditXMLError>(self.doc),
                                ));
                            }
                        }
                        return Ok(());
                    } else {
                        proof {
                            if was_synced {
                                assert(run_ends(
                                    states[steps as int],
                                    gev,
                                    *self,
                                    Err::<Document, EditXMLError>(
                                        EditXMLError::MalformedXML(
                                            MalformedReason::MissingClosingTag,
                                        ),
                                    ),
                                ));
                            }
                        }
                        return Err(
                            EditXMLError::MalformedXML(MalformedReason::MissingClosingTag),
                        );
                    }
                },
                Ok(false) => {
                    proof {
                        if was_synced {
                            let old_states = states;
                            let old_actual = actual;
                            states = states.push(*self);
                            actual = actual.push(gev);
                            assert(chain_ok(pre, actual, states, steps + 1)) by {
                                assert(actual.len() == steps + 1);
                                assert(states.len() == steps + 2);
                                assert forall|i: int| 0 <= i < steps + 1 implies handle_event_spec(
                                    #[trigger] states[i],
                                    actual[i],
                                    states[i + 1],
                                    Ok::<bool, EditXMLError>(false),
                                ) by {
                                    if i < steps as int {
                                        assert(states[i] == old_states[i]);
                                        assert(states[i + 1] == old_states[i + 1]);
                                        assert(actual[i] == old_actual[i]);
                                        assert(handle_event_spec(
                                            old_states[i],
                                            old_actual[i],
                                            old_states[i + 1],
                                            Ok::<bool, EditXMLError>(false),
                                        ));
                                    } else {
                                        assert(states[i] == prev);
                                        assert(states[i + 1] == *self);
                                        assert(actual[i] == gev);
                                    }
                                }
                            }
                            assert(matching_to(evs, actual, steps + 1)) by {
                                assert forall|i: int| 0 <= i < steps + 1 implies xml_event_matches(
                                    #[trigger] actual[i],
                                    evs[i],
                                ) by {
                                    if i < steps as int {
                                        assert(actual[i] == old_actual[i]);
                                        assert(xml_event_matches(old_actual[i], evs[i]));
                                    } else {
                                        assert(actual[i] == gev);
                                    }
                                }
                            }
                        }
                    }
                },
            }
            steps += 1;
        }
        proof {
            if synced {
                assert(chain_ok(pre, actual, states, bound as int));
                assert(matching_to(evs, actual, bound as int));
            }
        }
        // A tokenizer cannot yield more events than the input has bytes;
        // this keeps the reading loop total whatever comes back.
        Err(EditXMLError::MalformedXML(MalformedReason::GenericMalformedTree))
    }

    /// Creates a new element from a start or empty-element tag: splits
    /// its attributes, appends the record as a child of the element on
    /// top of the stack, and pushes it onto the stack for a start tag.
    fn create_element(&mut self, name: String, attrs: Vec<(String, String)>, on_stack: bool) -> (r:
        Result<bool, EditXMLError>)
        requires
            old(self).doc.wf(),
            stack_valid(*old(self)),
        ensures
            final(self).doc.wf(),
            stack_valid(*final(self)),
            (if old(self).element_stack@.len() == 0 {
                *final(self) == *old(self) && is_tree_err(r)
            } else if old(self).doc.store@.len() >= usize::MAX {
                *final(self) == *old(self) && is_tree_err(r)
            } else {
                match split_attrs_spec(
                    pairs_view(attrs@),
                    0,
                    old(self).read_opts.normalize_attribute_value_space,
                    Seq::<(Seq<char>, Seq<char>)>::empty(),
                    Seq::<(Seq<char>, Seq<char>)>::empty(),
                ) {
                    Err(e) => *final(self) == *old(self) && r == Err::<bool, EditXMLError>(
                        EditXMLError::CannotDecode(DecodeError::EscapeError(e)),
                    ),
                    Ok((a, n)) => new_element_added(
                        *old(self),
                        *final(self),
                        name@,
                        a,
                        n,
                        on_stack,
                    ) && r == Ok::<bool, EditXMLError>(false),
                }
            }),
    {
        if self.element_stack.len() == 0 {
            return Err(EditXMLError::MalformedXML(MalformedReason::GenericMalformedTree));
        }
        if self.doc.number_of_elements() == usize::MAX {
            return Err(EditXMLError::MalformedXML(MalformedReason::GenericMalformedTree));
        }
        let top = self.element_stack[self.element_stack.len() - 1];
        match element_attributes(&self.read_opts, &attrs) {
            Err(e) => Err(e),
            Ok((out_a, out_n)) => {
                let elem = Element::with_data(&mut self.doc, name, out_a, out_n);
                match top.push_child(&mut self.doc, Node::Element(elem)) {
                    Ok(()) => {},
                    Err(_) => {
                        proof {
                            assert(false);
                        }
                    },
                }
                if on_stack {
                    self.element_stack.push(elem);
                }
                Ok(false)
            },
        }
    }
}


/// A parser freshly set up for a run with the given options: a blank
/// document and only the container on the stack.
pub open spec fn fresh_parser(p: DocumentParser, opts: ReadOptions) -> bool {
    &&& p.doc.wf()
    &&& p.doc.store@.len() == 1
    &&& p.doc.store@[0].children@.len() == 0
    &&& p.doc.version@ == "1.0"@
    &&& p.doc.standalone is None
    &&& p.element_stack@ == seq![p.doc.container]
    &&& p.encoding is None
    &&& p.read_opts == opts
}

/// The sequence `states` records a run of the first `k` events from
/// `pre`: it starts at `pre` and each event, handled as an ordinary,
/// non-final event, takes one state to the next.
pub open spec fn chain_ok(
    pre: DocumentParser,
    events: Seq<XmlEvent>,
    states: Seq<DocumentParser>,
    k: int,
) -> bool {
    &&& 0 <= k <= events.len()
    &&& states.len() == k + 1
    &&& states[0] == pre
    &&& forall|i: int|
        0 <= i < k ==> handle_event_spec(
            #[trigger] states[i],
            events[i],
            states[i + 1],
            Ok(false),
        )
}

/// The event `ev` ends a run in state `mid` with result `r`: either it
/// is handled as the final event with only the container left, and the
/// document comes out, or it is handled as final with more on the stack,
/// a missing closing tag, or handling it fails outright.
pub open spec fn run_ends(
    mid: DocumentParser,
    ev: XmlEvent,
    fin: DocumentParser,
    r: Result<Document, EditXMLError>,
) -> bool {
    match r {
        Ok(doc) => handle_event_spec(mid, ev, fin, Ok(true)) && fin.element_stack@.len() == 1
            && doc == fin.doc,
        Err(e) => (handle_event_spec(mid, ev, fin, Ok(true)) && fin.element_stack@.len() != 1 && e
            == EditXMLError::MalformedXML(MalformedReason::MissingClosingTag))
            || handle_event_spec(mid, ev, fin, Err(e)),
    }
}

/// What a whole event run from `p0` yields: the first event handled as
/// final or as an error ends the run; an event sequence with no ending
/// at all is a malformed tree.
pub open spec fn run_outcome(
    p0: DocumentParser,
    events: Seq<XmlEvent>,
    r: Result<Document, EditXMLError>,
) -> bool {
    ||| exists|states: Seq<DocumentParser>, k: int, fin: DocumentParser|
        #![trigger chain_ok(p0, events, states, k), run_ends(states[k], events[k], fin, r)]
        0 <= k < events.len() && chain_ok(p0, events, states, k) && run_ends(
            states[k],
            events[k],
            fin,
            r,
        )
    ||| ((exists|states: Seq<DocumentParser>|
        #[trigger] chain_ok(p0, events, states, events.len() as int)) && r == Err::<
        Document,
        EditXMLError,
    >(EditXMLError::MalformedXML(MalformedReason::GenericMalformedTree)))
}

impl DocumentParser {
    /// Builds a document from a whole event sequence, handling each
    /// event in turn; the one entry point to the builder state machine
    /// that takes the tokenizer's output as a plain value.
    pub fn build_from_events(events: Vec<XmlEvent>, opts: ReadOptions) -> (r: Result<
        Document,
        EditXMLError,
    >)
        ensures
            (r matches Ok(doc) ==> doc.wf()),
            exists|p0: DocumentParser| #[trigger] fresh_parser(p0, opts) && run_outcome(
                p0,
                events@,
                r,
            ),
    {
        let mut pending = events;
        let doc = Document::new();
        let mut element_stack: Vec<Element> = Vec::new();
        element_stack.push(Element { id: 0 });
        let mut parser = DocumentParser { doc, read_opts: opts, encoding: None, element_stack };
        let ghost p0 = parser;
        let ghost mut states: Seq<DocumentParser> = seq![p0];
        proof {
            assert(p0.element_stack@ =~= seq![p0.doc.container]);
            assert(fresh_parser(p0, opts));
            assert(chain_ok(p0, events@, states, 0));
        }
        let n = pending.len();
        let mut k: usize = 0;
        while k < n
            invariant
                parser.doc.wf(),
                stack_valid(parser),
                k <= n,
                n == events@.len(),
                pending@ == events@.skip(k as int),
                fresh_parser(p0, opts),
                chain_ok(p0, events@, states, k as int),
                states[k as int] == parser,
            decreases n - k,
        {
            let ev = pending.remove(0);
            proof {
                assert(events@.skip(k as int)[0] == events@[k as int]);
                assert(events@.skip(k as int).remove(0) =~= events@.skip(k + 1));
            }
            let ghost prev = parser;
            match parser.handle_event(ev) {
                Err(e) => {
                    proof {
                        assert(chain_ok(p0, events@, states, k as int));
                        assert(run_ends(
                            states[k as int],
                            events@[k as int],
                            parser,
                            Err::<Document, EditXMLError>(e),
                        ));
                        assert(run_outcome(p0, events@, Err::<Document, EditXMLError>(e)));
                    }
                    return Err(e);
                },
                Ok(true) => {
                    if parser.element_stack.len() == 1 {
                        proof {
                            assert(chain_ok(p0, events@, states, k as int));
                            assert(run_ends(
                                states[k as int],
                                events@[k as int],
                                parser,
                                Ok::<Document, EditXMLError>(parser.doc),
                            ));
                            assert(run_outcome(
                                p0,
                                events@,
                                Ok::<Document, EditXMLError>(parser.doc),
                            ));
                        }
                        return Ok(parser.doc);
                    } else {
                        proof {
                            assert(chain_ok(p0, events@, states, k as int));
                            assert(run_ends(
                                states[k as int],
                                events@[k as int],
                                parser,
                                Err::<Document, EditXMLError>(
                                    EditXMLError::MalformedXML(
                                        MalformedReason::MissingClosingTag,
                                    ),
                                ),
                            ));
                            assert(run_outcome(
                                p0,
                                events@,
                                Err::<Document, EditXMLError>(
                                    EditXMLError::MalformedXML(
                                        MalformedReason::MissingClosingTag,
                                    ),
                                ),
                            ));
                        }
                        return Err(
                            EditXMLError::MalformedXML(MalformedReason::MissingClosingTag),
                        );
                    }
                },
                Ok(false) => {
                    proof {
                        let old_states = states;
                        states = states.push(parser);
                        assert(chain_ok(p0, events@, states, k + 1)) by {
                            assert forall|i: int| 0 <= i < k + 1 implies handle_event_spec(
                                #[trigger] states[i],
                                events@[i],
                                states[i + 1],
                                Ok::<bool, EditXMLError>(false),
                            ) by {
                                if i < k as int {
                                    assert(states[i] == old_states[i]);
                                    assert(states[i + 1] == old_states[i + 1]);
                                    assert(handle_event_spec(
                                        old_states[i],
                                        events@[i],
                                        old_states[i + 1],
                                        Ok::<bool, EditXMLError>(false),
                                    ));
                                } else {
                                    assert(states[i] == prev);
                                    assert(states[i + 1] == parser);
                                }
                            }
                        }
                    }
                },
            }
            k += 1;
        }
        proof {
            assert(chain_ok(p0, events@, states, events@.len() as int));
            assert(run_outcome(
                p0,
                events@,
                Err::<Document, EditXMLError>(
                    EditXMLError::MalformedXML(MalformedReason::GenericMalformedTree),
                ),
            ));
        }
        Err(EditXMLError::MalformedXML(MalformedReason::GenericMalformedTree))
    }
}

/// Converts the next tokenizer event into plain values: the result, on
/// success, reads the same as the head of the reader's event sequence,
/// which moves forward by one.
fn next_plain_event(rd: &mut quick_xml::reader::Reader<&[u8]>) -> (r: Result<
    XmlEvent,
    EditXMLError,
>)
    ensures
        reader_events(*old(rd)).len() > 0 ==> (r matches Ok(xe) ==> (xml_event_matches(
            xe,
            reader_events(*old(rd))[0],
        ) && reader_events(*final(rd)) == reader_events(*old(rd)).drop_first())),
        (r matches Err(e) ==> (e is OtherXML || e is AttrError)),
{
    let ev = match tokenizer_next(rd) {
        Ok(ev) => ev,
        Err(msg) => {
            return Err(EditXMLError::OtherXML(msg));
        },
    };
    let ghost pe = plain_of(ev);
    let kind = event_kind(&ev);
    if kind == EventKind::Start || kind == EventKind::Empty {
        let name = event_start_name(&ev);
        let count = event_attr_count(&ev);
        let ghost pattrs: Seq<(String, String)> = match pe {
            XmlEvent::Start { attrs: pa, .. } => pa@,
            XmlEvent::Empty { attrs: pa, .. } => pa@,
            _ => Seq::<(String, String)>::empty(),
        };
        proof {
            assert(count == pattrs.len());
        }
        let mut attrs: Vec<(String, String)> = Vec::new();
        let mut i: usize = 0;
        proof {
            assert(pairs_view(attrs@) =~= pairs_view(pattrs).take(0));
        }
        while i < count
            invariant
                i <= count,
                pe == plain_of(ev),
                count == pattrs.len(),
                pattrs == (match pe {
                    XmlEvent::Start { attrs: pa, .. } => pa@,
                    XmlEvent::Empty { attrs: pa, .. } => pa@,
                    _ => Seq::<(String, String)>::empty(),
                }),
                pe is Start || pe is Empty,
                pairs_view(attrs@) == pairs_view(pattrs).take(i as int),
            decreases count - i,
        {
            match event_attr_at(&ev, i) {
                Some(res) => match res {
                    Ok(pair) => {
                        let ghost before = attrs@;
                        let ghost gpair = pair;
                        attrs.push(pair);
                        proof {
                            match pe {
                                XmlEvent::Start { attrs: pa, .. } => {
                                    assert(pa@ == pattrs);
                                },
                                XmlEvent::Empty { attrs: pa, .. } => {
                                    assert(pa@ == pattrs);
                                },
                                _ => {
                                    assert(false);
                                },
                            }
                            assert(gpair.0@ == pattrs[i as int].0@);
                            assert(gpair.1@ == pattrs[i as int].1@);
                            assert(pairs_view(before).len() == before.len());
                            assert(pairs_view(pattrs).take(i as int).len() == i as int);
                            assert(before.len() == i as int);
                            assert(attrs@ == before.push(gpair));
                            assert(attrs@[i as int] == gpair);
                            assert(pairs_view(attrs@)[i as int] == (gpair.0@, gpair.1@));
                            assert(pairs_view(pattrs)[i as int] == (pattrs[i as int].0@, pattrs[
                                i as int].1@));
                            assert forall|j: int| 0 <= j < i implies #[trigger] pairs_view(
                                attrs@,
                            )[j] == pairs_view(pattrs)[j] by {
                                assert(attrs@[j] == before[j]);
                                assert(pairs_view(before)[j] == (before[j].0@, before[j].1@));
                                assert(pairs_view(attrs@)[j] == (attrs@[j].0@, attrs@[j].1@));
                                assert(pairs_view(before)[j] == pairs_view(pattrs).take(
                                    i as int,
                                )[j]);
                            }
                            assert(pairs_view(attrs@) =~= pairs_view(pattrs).take(i + 1));
                        }
                    },
                    Err(msg) => {
                        return Err(EditXMLError::AttrError(msg));
                    },
                },
                None => {
                    proof {
                        assert(false);
                    }
                },
            }
            i += 1;
        }
        proof {
            assert(pairs_view(pattrs).take(count as int) =~= pairs_view(pattrs));
        }
        if kind == EventKind::Start {
            proof {
                assert(xml_event_matches(
                    XmlEvent::Start { name: name, attrs: attrs },
                    pe,
                ));
            }
            Ok(XmlEvent::Start { name, attrs })
        } else {
            proof {
                assert(xml_event_matches(
                    XmlEvent::Empty { name: name, attrs: attrs },
                    pe,
                ));
            }
            Ok(XmlEvent::Empty { name, attrs })
        }
    } else if kind == EventKind::End {
        Ok(XmlEvent::End)
    } else if kind == EventKind::Text {
        Ok(XmlEvent::Text(event_text(&ev)))
    } else if kind == EventKind::CData {
        Ok(XmlEvent::CData(event_text(&ev)))
    } else if kind == EventKind::Comment {
        Ok(XmlEvent::Comment(event_text(&ev)))
    } else if kind == EventKind::PI {
        Ok(XmlEvent::PI(event_text(&ev)))
    } else if kind == EventKind::DocType {
        Ok(XmlEvent::DocType(event_text(&ev)))
    } else if kind == EventKind::GeneralRef {
        Ok(XmlEvent::GeneralRef(event_text(&ev)))
    } else if kind == EventKind::Decl {
        match event_decl_parts(&ev) {
            Ok(parts) => Ok(
                XmlEvent::Decl { version: parts.0, encoding: parts.1, standalone: parts.2 },
            ),
            Err(msg) => Err(EditXMLError::OtherXML(msg)),
        }
    } else {
        Ok(XmlEvent::Eof)
    }
}

/// The bytes of `b` from position `start` on.
fn tail_bytes(b: &[u8], start: usize) -> (v: Vec<u8>)
    requires
        start <= b@.len(),
    ensures
        v@ == b@.skip(start as int),
{
    let n = b.len();
    let mut v: Vec<u8> = Vec::with_capacity(n - start);
    let mut i: usize = start;
    proof {
        assert(v@ =~= b@.subrange(start as int, start as int));
    }
    while i < n
        invariant
            start <= i <= n,
            n == b@.len(),
            v@ == b@.subrange(start as int, i as int),
        decreases n - i,
    {
        v.push(b[i]);
        proof {
            assert(v@ =~= b@.subrange(start as int, i + 1));
        }
        i += 1;
    }
    proof {
        assert(b@.subrange(start as int, n as int) =~= b@.skip(start as int));
    }
    v
}

/// True when the two optional encoding names read the same.
fn option_str_eq(a: &Option<String>, b: &Option<String>) -> (r: bool)
    ensures
        r == (match (a, b) {
            (Some(x), Some(y)) => x@ == y@,
            (None, None) => true,
            _ => false,
        }),
{
    match (a, b) {
        (Some(x), Some(y)) => compare_str(x.as_str(), y.as_str()),
        (None, None) => true,
        _ => false,
    }
}

/// The step budget for an input of the given length.
pub open spec fn event_bound_spec(len: int) -> int {
    if len > usize::MAX - 2 {
        usize::MAX as int
    } else {
        len + 2
    }
}

/// An events-per-input bound: a tokenizer event always consumes input,
/// so a run can never see more events than bytes, plus the declaration
/// and the end marker.
fn event_bound(len: usize) -> (r: usize)
    ensures
        r as int == event_bound_spec(len as int),
        r >= 2,
{
    if len > usize::MAX - 2 {
        usize::MAX
    } else {
        len + 2
    }
}

/// The index of the first event the builder acts on: one leading text
/// run that is empty, or whitespace-only when such runs are ignored, is
/// skipped.
pub open spec fn first_effective_index(evs: Seq<XmlEvent>, opts: ReadOptions) -> int {
    if evs.len() > 0 && (match evs[0] {
        XmlEvent::Text(t) => t@.len() == 0 || (opts.ignore_whitespace_only && (forall|i: int|
            0 <= i < t@.len() ==> crate::utils::is_ws_char(t@[i]))),
        _ => false,
    }) {
        1
    } else {
        0
    }
}

/// The declaration parts of `ev` were recorded in `post`, as
/// `handle_decl` records them, stated over what the event reads.
pub open spec fn decl_recorded_v(
    pre: DocumentParser,
    ev: XmlEvent,
    post: DocumentParser,
    rr: Result<(), EditXMLError>,
) -> bool {
    match ev {
        XmlEvent::Decl { version, encoding, standalone } => {
            &&& post.doc.store == pre.doc.store
            &&& post.doc.counter == pre.doc.counter
            &&& post.doc.container == pre.doc.container
            &&& post.doc.version@ == version@
            &&& post.element_stack == pre.element_stack
            &&& post.read_opts == pre.read_opts
            &&& (match encoding {
                None => post.encoding is None && standalone_recorded(pre, standalone, post, rr),
                Some(lbl) => (match crate::decoding::encoding_lookup(
                    vstd::utf8::encode_utf8(lbl@),
                ) {
                    None => rr == Err::<(), EditXMLError>(
                        EditXMLError::CannotDecode(DecodeError::MissingEncoding),
                    ) && post.encoding == pre.encoding && post.doc.standalone
                        == pre.doc.standalone,
                    Some(name) => (match post.encoding {
                        Some(es) => es@ == name && name != utf8_name_chars(),
                        None => name == utf8_name_chars(),
                    }) && standalone_recorded(pre, standalone, post, rr),
                }),
            })
        },
        _ => false,
    }
}

/// Whether the declaration event names an encoding at all; only a named
/// encoding can switch the decoder.
pub open spec fn decl_names_encoding(ev: XmlEvent) -> bool {
    match ev {
        XmlEvent::Decl { encoding, .. } => encoding is Some,
        _ => false,
    }
}

/// The outcome of the tail of a run after a decoder switch: the bytes
/// from some boundary `off` on are decoded under the declared encoding
/// and tokenized afresh.  Which boundary the raw input maps back to
/// depends on how much the first tokenizer consumed, which the model
/// leaves open.
pub open spec fn swap_tail_outcome(
    bytes: Seq<u8>,
    opts: ReadOptions,
    p1: DocumentParser,
    off: int,
    r: Result<Document, EditXMLError>,
) -> bool {
    match p1.encoding {
        Some(name) => if crate::decoding::encoding_lookup(
            vstd::utf8::encode_utf8(name@),
        ) is None {
            r == Err::<Document, EditXMLError>(
                EditXMLError::CannotDecode(DecodeError::MissingEncoding),
            )
        } else {
            content_outcome(
                p1,
                tokenize(
                    vstd::utf8::encode_utf8(
                        crate::decoding::transcode(name@, bytes.skip(off)),
                    ),
                    opts.trim_text,
                ),
                event_bound_spec(
                    vstd::utf8::encode_utf8(
                        crate::decoding::transcode(name@, bytes.skip(off)),
                    ).len() as int,
                ),
                r,
            )
        },
        None => content_outcome(
            p1,
            tokenize(bytes.skip(off), opts.trim_text),
            event_bound_spec(bytes.len() - off),
            r,
        ),
    }
}

/// What follows a successfully recorded declaration: when it names an
/// encoding different from the initial one — except for a generic
/// `UTF-16` resolved little-endian over a sniffed big-endian mark — the
/// decoder switches for the remainder of the raw input, at a boundary
/// the overflow guards may also reject; otherwise the run goes on over
/// the rest of the same stream.
pub open spec fn after_decl_outcome(
    bytes: Seq<u8>,
    opts: ReadOptions,
    init: Option<Seq<char>>,
    named: bool,
    p1: DocumentParser,
    evs: Seq<XmlEvent>,
    fi: int,
    bound: int,
    r: Result<Document, EditXMLError>,
) -> bool {
    let dn: Option<Seq<char>> = match p1.encoding {
        Some(s) => Some(s@),
        None => None,
    };
    let exempt = dn == Some("UTF-16LE"@) && init == Some("UTF-16BE"@);
    if named && dn != init && !exempt {
        ||| exists|off: int|
            0 <= off <= bytes.len() && #[trigger] swap_tail_outcome(bytes, opts, p1, off, r)
        ||| r == Err::<Document, EditXMLError>(
            EditXMLError::MalformedXML(MalformedReason::GenericMalformedTree),
        )
    } else {
        content_outcome(p1, evs.skip(fi + 1), bound, r)
    }
}

/// What parsing yields once the initial text `text1` is fixed: either
/// an error the tokenizer itself reported; or a stream too short to say
/// anything; or, at the first effective event: a required-but-missing
/// declaration error, a declaration recorded and followed per the
/// switch rule, or an ordinary first event handled and followed by the
/// content run.
pub open spec fn parse_text_outcome(
    bytes: Seq<u8>,
    opts: ReadOptions,
    init: Option<Seq<char>>,
    text1: Seq<u8>,
    r: Result<Document, EditXMLError>,
) -> bool {
    let evs = tokenize(text1, opts.trim_text);
    let bound = event_bound_spec(text1.len() as int);
    let fi = first_effective_index(evs, opts);
    ||| (r matches Err(e) && (e is OtherXML || e is AttrError))
    ||| fi >= evs.len()
    ||| (fi < evs.len() && !(evs[fi] is Decl) && opts.require_decl && r == Err::<
        Document,
        EditXMLError,
    >(EditXMLError::MalformedXML(MalformedReason::MissingDeclaration)))
    ||| (fi < evs.len() && !(evs[fi] is Decl) && !opts.require_decl && (exists|
        aev: XmlEvent,
        p0: DocumentParser,
        st1: DocumentParser,
        hr: Result<bool, EditXMLError>,
    |
        #![trigger fresh_parser(p0, opts), handle_event_spec(p0, aev, st1, hr)]
        fresh_parser(p0, opts) && xml_event_matches(aev, evs[fi]) && handle_event_spec(
            p0,
            aev,
            st1,
            hr,
        ) && (match hr {
            Ok(true) => r matches Ok(d) && d == st1.doc,
            Ok(false) => content_outcome(st1, evs.skip(fi + 1), bound, r),
            Err(e) => r == Err::<Document, EditXMLError>(e),
        })))
    ||| (fi < evs.len() && evs[fi] is Decl && (exists|
        p0: DocumentParser,
        p1: DocumentParser,
        rr: Result<(), EditXMLError>,
    |
        #![trigger fresh_parser(p0, opts), decl_recorded_v(p0, evs[fi], p1, rr)]
        fresh_parser(p0, opts) && decl_recorded_v(p0, evs[fi], p1, rr) && (match rr {
            Ok(()) => after_decl_outcome(
                bytes,
                opts,
                init,
                decl_names_encoding(evs[fi]),
                p1,
                evs,
                fi,
                bound,
                r,
            ),
            Err(e) => r == Err::<Document, EditXMLError>(e),
        })))
}

/// The canonical name the sniffed byte-order announcement stands for.
pub open spec fn sniff_name(sn: crate::decoding::SniffResult) -> Option<Seq<char>> {
    match sn.utf16 {
        Some(Utf16Kind::Be) => Some("UTF-16BE"@),
        Some(Utf16Kind::Le) => Some("UTF-16LE"@),
        None => None,
    }
}

/// What parsing a byte slice yields: a forced encoding label that names
/// no encoding is rejected; otherwise the input after the byte-order
/// mark is decoded under the initial encoding — rejected likewise when
/// its name lookup fails — and the run over the tokenized text decides
/// the rest.
pub open spec fn parse_outcome(
    bytes: Seq<u8>,
    opts: ReadOptions,
    r: Result<Document, EditXMLError>,
) -> bool {
    let sn = sniff_spec(bytes);
    match opts.encoding {
        Some(lbl) => match crate::decoding::encoding_lookup(vstd::utf8::encode_utf8(lbl@)) {
            None => r == Err::<Document, EditXMLError>(
                EditXMLError::CannotDecode(DecodeError::MissingEncoding),
            ),
            Some(n) => init_decoded_outcome(bytes, opts, Some(n), sn.bom_len as int, r),
        },
        None => init_decoded_outcome(bytes, opts, sniff_name(sn), sn.bom_len as int, r),
    }
}

/// The initial decode: under a named initial encoding the input is
/// transcoded — or rejected when the name lookup fails — and without
/// one the bytes pass through as they are.
pub open spec fn init_decoded_outcome(
    bytes: Seq<u8>,
    opts: ReadOptions,
    init: Option<Seq<char>>,
    bom: int,
    r: Result<Document, EditXMLError>,
) -> bool {
    match init {
        Some(name) => if crate::decoding::encoding_lookup(
            vstd::utf8::encode_utf8(name),
        ) is None {
            r == Err::<Document, EditXMLError>(
                EditXMLError::CannotDecode(DecodeError::MissingEncoding),
            )
        } else {
            parse_text_outcome(
                bytes,
                opts,
                init,
                vstd::utf8::encode_utf8(crate::decoding::transcode(name, bytes.skip(bom))),
                r,
            )
        },
        None => parse_text_outcome(bytes, opts, None, bytes.skip(bom), r),
    }
}

impl DocumentParser {
    /// Parses a whole byte slice: sniffs the encoding, transcodes,
    /// handles the declaration and its possible mid-stream encoding
    /// switch, and builds the tree from the event stream.
    pub fn parse_bytes(bytes: &[u8], opts: ReadOptions) -> (r: Result<Document, EditXMLError>)
        ensures
            (r matches Ok(doc) ==> doc.wf()),
            parse_outcome(bytes@, opts, r),
    {
        let sniff = sniff_encoding(bytes);
        let mut init_enc: Option<String> = match sniff.utf16 {
            Some(Utf16Kind::Be) => Some(String::from_str("UTF-16BE")),
            Some(Utf16Kind::Le) => Some(String::from_str("UTF-16LE")),
            None => None,
        };
        proof {
            assert(match init_enc {
                Some(s) => sniff_name(sniff_spec(bytes@)) == Some(s@),
                None => sniff_name(sniff_spec(bytes@)) is None,
            });
        }
        match &opts.encoding {
            Some(lbl) => {
                match canonical_encoding_label(lbl.as_str().as_bytes()) {
                    Some(name) => {
                        init_enc = Some(name);
                    },
                    None => {
                        return Err(EditXMLError::CannotDecode(DecodeError::MissingEncoding));
                    },
                }
            },
            None => {},
        }
        let ghost init_v: Option<Seq<char>> = match &init_enc {
            Some(s) => Some(s@),
            None => None,
        };
        let rest = tail_bytes(bytes, sniff.bom_len);
        let text1: Vec<u8> = match &init_enc {
            Some(name) => match decode_bytes(name.as_str(), rest.as_slice()) {
                Some(s) => s.as_str().as_bytes_vec(),
                None => {
                    return Err(EditXMLError::CannotDecode(DecodeError::MissingEncoding));
                },
            },
            None => rest,
        };
        proof {
            assert(match init_v {
                Some(n) => crate::decoding::encoding_lookup(vstd::utf8::encode_utf8(n)) is Some
                    && text1@ == vstd::utf8::encode_utf8(
                    crate::decoding::transcode(n, bytes@.skip(sniff.bom_len as int)),
                ),
                None => text1@ == bytes@.skip(sniff.bom_len as int),
            });
        }
        let doc = Document::new_with_store_size(opts.optimizations.document_initial_capacity);
        let mut element_stack: Vec<Element> = Vec::with_capacity(
            opts.optimizations.reader_stack_initial_capacity,
        );
        element_stack.push(Element { id: 0 });
        let trim = opts.trim_text;
        let ignore_ws = opts.ignore_whitespace_only;
        let require_decl = opts.require_decl;
        let ghost gopts = opts;
        let mut parser = DocumentParser { doc, read_opts: opts, encoding: None, element_stack };
        let ghost p0 = parser;
        proof {
            assert(p0.element_stack@ =~= seq![p0.doc.container]);
            assert(fresh_parser(p0, gopts));
        }
        let ghost evs = tokenize(text1@, gopts.trim_text);
        let ghost bound_s = event_bound_spec(text1@.len() as int);
        let mut rd = tokenizer_new(text1.as_slice(), trim);
        // The first event, skipping one leading empty or whitespace-only
        // text run.
        let first = match next_plain_event(&mut rd) {
            Ok(ev) => ev,
            Err(e) => {
                return Err(e);
            },
        };
        let ghost g0 = first;
        let ghost skipped: bool = match g0 {
            XmlEvent::Text(t) => t@.len() == 0 || (gopts.ignore_whitespace_only && (forall|i: int|
                0 <= i < t@.len() ==> crate::utils::is_ws_char(t@[i]))),
            _ => false,
        };
        let first = match first {
            XmlEvent::Text(t) => {
                if t.as_str().unicode_len() == 0 || (ignore_ws
                    && crate::utils::str_only_whitespace(t.as_str())) {
                    match next_plain_event(&mut rd) {
                        Ok(ev) => ev,
                        Err(e) => {
                            return Err(e);
                        },
                    }
                } else {
                    XmlEvent::Text(t)
                }
            },
            ev => ev,
        };
        let ghost gfirst = first;
        let ghost fi = first_effective_index(evs, gopts);
        let ghost in_range = fi < evs.len();
        proof {
            if evs.len() > 0 {
                assert(xml_event_matches(g0, evs[0]));
                assert(skipped == (fi == 1));
                if !skipped {
                    assert(xml_event_matches(gfirst, evs[fi]));
                    assert(reader_events(rd) =~= evs.skip(fi + 1));
                } else if evs.len() > 1 {
                    assert(evs.skip(1)[0] == evs[1]);
                    assert(xml_event_matches(gfirst, evs[fi]));
                    assert(evs.skip(1).drop_first() =~= evs.skip(2));
                    assert(reader_events(rd) =~= evs.skip(fi + 1));
                }
            }
        }
        match first {
            XmlEvent::Decl { version, encoding, standalone } => {
                let decl_named = encoding.is_some();
                let ghost gversion = version;
                let ghost gencoding = encoding;
                let ghost gstandalone = standalone;
                match parser.handle_decl(version, encoding, standalone) {
                    Ok(()) => {
                        proof {
                            if in_range {
                                assert(decl_recorded_v(
                                    p0,
                                    evs[fi],
                                    parser,
                                    Ok::<(), EditXMLError>(()),
                                )) by {
                                    lemma_decl_recorded_transport(
                                        p0,
                                        gfirst,
                                        evs[fi],
                                        parser,
                                        Ok::<(), EditXMLError>(()),
                                    );
                                }
                            }
                        }
                    },
                    Err(e) => {
                        proof {
                            if in_range {
                                assert(decl_recorded_v(
                                    p0,
                                    evs[fi],
                                    parser,
                                    Err::<(), EditXMLError>(e),
                                )) by {
                                    lemma_decl_recorded_transport(
                                        p0,
                                        gfirst,
                                        evs[fi],
                                        parser,
                                        Err::<(), EditXMLError>(e),
                                    );
                                }
                                assert(parse_text_outcome(
                                    bytes@,
                                    gopts,
                                    init_v,
                                    text1@,
                                    Err::<Document, EditXMLError>(e),
                                ));
                            }
                        }
                        return Err(e);
                    },
                }
                let ghost p1 = parser;
                // The decoder switches only when the declaration names an
                // encoding different from the initial one.  A generic
                // `UTF-16` label resolves to little endian; a big-endian
                // mark already sniffed stands.
                let exempt = (match (&parser.encoding, &init_enc) {
                    (Some(d), Some(s)) => compare_str(d.as_str(), "UTF-16LE") && compare_str(
                        s.as_str(),
                        "UTF-16BE",
                    ),
                    _ => false,
                });
                let named_differently = decl_named && !option_str_eq(
                    &parser.encoding,
                    &init_enc,
                );
                proof {
                    reveal_strlit("UTF-16LE");
                    reveal_strlit("UTF-16BE");
                    let dn: Option<Seq<char>> = match p1.encoding {
                        Some(sx) => Some(sx@),
                        None => None,
                    };
                    assert(exempt == (dn == Some("UTF-16LE"@) && init_v == Some("UTF-16BE"@)));
                    assert(named_differently == (decl_named && dn != init_v));
                    if in_range {
                        assert(decl_named == decl_names_encoding(evs[fi]));
                    }
                }
                if named_differently && !exempt {
                    // Switch decoders for the remainder of the raw input:
                    // what the first tokenizer consumed maps back to raw
                    // bytes through the width of the initial encoding.
                    let pos64 = tokenizer_position(&rd);
                    let wide = (match &init_enc {
                        Some(n) => compare_str(n.as_str(), "UTF-16BE") || compare_str(
                            n.as_str(),
                            "UTF-16LE",
                        ),
                        None => false,
                    });
                    let doubled: u64 = if wide {
                        if pos64 > u64::MAX / 2 {
                            proof {
                                parse_text_gmt_witness(bytes@, gopts, init_v, text1@, fi, p0, p1);
                            }
                            return Err(
                                EditXMLError::MalformedXML(MalformedReason::GenericMalformedTree),
                            );
                        }
                        pos64 * 2
                    } else {
                        pos64
                    };
                    if doubled > u64::MAX - 4 {
                        proof {
                            parse_text_gmt_witness(bytes@, gopts, init_v, text1@, fi, p0, p1);
                        }
                        return Err(
                            EditXMLError::MalformedXML(MalformedReason::GenericMalformedTree),
                        );
                    }
                    let raw64: u64 = sniff.bom_len as u64 + doubled;
                    let blen = bytes.len();
                    let raw_off: usize = if raw64 > blen as u64 {
                        blen
                    } else {
                        raw64 as usize
                    };
                    let rest2 = tail_bytes(bytes, raw_off);
                    let text2: Vec<u8> = match &parser.encoding {
                        Some(name) => match decode_bytes(name.as_str(), rest2.as_slice()) {
                            Some(s) => s.as_str().as_bytes_vec(),
                            None => {
                                proof {
                                    if in_range {
                                        assert(swap_tail_outcome(
                                            bytes@,
                                            gopts,
                                            p1,
                                            raw_off as int,
                                            Err::<Document, EditXMLError>(
                                                EditXMLError::CannotDecode(
                                                    DecodeError::MissingEncoding,
                                                ),
                                            ),
                                        ));
                                    }
                                }
                                return Err(
                                    EditXMLError::CannotDecode(DecodeError::MissingEncoding),
                                );
                            },
                        },
                        None => rest2,
                    };
                    let bound = event_bound(text2.len());
                    let mut rd2 = tokenizer_new(text2.as_slice(), trim);
                    let out = match parser.parse_content(&mut rd2, bound) {
                        Ok(()) => Ok(parser.doc),
                        Err(e) => Err(e),
                    };
                    proof {
                        if in_range {
                            assert(swap_tail_outcome(bytes@, gopts, p1, raw_off as int, out));
                        }
                    }
                    out
                } else {
                    let bound = event_bound(text1.len());
                    let out = match parser.parse_content(&mut rd, bound) {
                        Ok(()) => Ok(parser.doc),
                        Err(e) => Err(e),
                    };
                    proof {
                        if in_range {
                            assert(after_decl_outcome(
                                bytes@,
                                gopts,
                                init_v,
                                decl_names_encoding(evs[fi]),
                                p1,
                                evs,
                                fi,
                                bound_s,
                                out,
                            ));
                        }
                    }
                    out
                }
            },
            other => {
                let ghost gother = other;
                if require_decl {
                    proof {
                        if in_range {
                            assert(!(evs[fi] is Decl));
                        }
                    }
                    return Err(EditXMLError::MalformedXML(MalformedReason::MissingDeclaration));
                }
                let ghost prev = parser;
                match parser.handle_event(other) {
                    Err(e) => {
                        proof {
                            if in_range {
                                assert(handle_event_spec(
                                    p0,
                                    gother,
                                    parser,
                                    Err::<bool, EditXMLError>(e),
                                ));
                            }
                        }
                        return Err(e);
                    },
                    Ok(true) => {
                        proof {
                            if in_range {
                                assert(handle_event_spec(
                                    p0,
                                    gother,
                                    parser,
                                    Ok::<bool, EditXMLError>(true),
                                ));
                            }
                        }
                        return Ok(parser.doc);
                    },
                    Ok(false) => {
                        proof {
                            if in_range {
                                assert(handle_event_spec(
                                    p0,
                                    gother,
                                    parser,
                                    Ok::<bool, EditXMLError>(false),
                                ));
                            }
                        }
                    },
                }
                let ghost st1 = parser;
                let bound = event_bound(text1.len());
                let out = match parser.parse_content(&mut rd, bound) {
                    Ok(()) => Ok(parser.doc),
                    Err(e) => Err(e),
                };
                proof {
                    if in_range {
                        assert(content_outcome(st1, evs.skip(fi + 1), bound_s, out));
                    }
                }
                out
            },
        }
    }
}

/// `decl_recorded_v` only reads what the declaration parts read as, so
/// it transports from the handled event to any event reading the same.
proof fn lemma_decl_recorded_transport(
    pre: DocumentParser,
    a: XmlEvent,
    b: XmlEvent,
    post: DocumentParser,
    rr: Result<(), EditXMLError>,
)
    requires
        xml_event_matches(a, b),
        decl_recorded_v(pre, a, post, rr),
    ensures
        decl_recorded_v(pre, b, post, rr),
{
}

/// The overflow guards in the decoder switch report a malformed tree;
/// this exhibits the witnesses for that outcome.
proof fn parse_text_gmt_witness(
    bytes: Seq<u8>,
    opts: ReadOptions,
    init: Option<Seq<char>>,
    text1: Seq<u8>,
    fi: int,
    p0: DocumentParser,
    p1: DocumentParser,
)
    requires
        fi == first_effective_index(tokenize(text1, opts.trim_text), opts),
        fi < tokenize(text1, opts.trim_text).len() ==> (tokenize(text1, opts.trim_text)[fi]
            is Decl && fresh_parser(p0, opts) && decl_recorded_v(
            p0,
            tokenize(text1, opts.trim_text)[fi],
            p1,
            Ok::<(), EditXMLError>(()),
        ) && (decl_names_encoding(tokenize(text1, opts.trim_text)[fi]) && (match p1.encoding {
            Some(sx) => Some(sx@),
            None => None,
        }) != init && !((match p1.encoding {
            Some(sx) => Some(sx@),
            None => None,
        }) == Some("UTF-16LE"@) && init == Some("UTF-16BE"@)))),
    ensures
        parse_text_outcome(
            bytes,
            opts,
            init,
            text1,
            Err(EditXMLError::MalformedXML(MalformedReason::GenericMalformedTree)),
        ),
{
    let evs = tokenize(text1, opts.trim_text);
    if fi < evs.len() {
        assert(after_decl_outcome(
            bytes,
            opts,
            init,
            decl_names_encoding(evs[fi]),
            p1,
            evs,
            fi,
            event_bound_spec(text1.len() as int),
            Err(EditXMLError::MalformedXML(MalformedReason::GenericMalformedTree)),
        ));
    }
}

/// Parsing entry points; all converge on the same parser.
impl Document {
    /// Parses a document from a string with the default options.
    pub fn parse_str(input: &str) -> (r: Result<Document, EditXMLError>)
        ensures
            (r matches Ok(doc) ==> doc.wf()),
            parse_outcome(vstd::utf8::encode_utf8(input@), default_read_options(), r),
    {
        DocumentParser::parse_bytes(input.as_bytes(), ReadOptions::default())
    }

    /// Parses a document from a string.
    pub fn parse_str_with_opts(input: &str, opts: ReadOptions) -> (r: Result<
        Document,
        EditXMLError,
    >)
        ensures
            (r matches Ok(doc) ==> doc.wf()),
            parse_outcome(vstd::utf8::encode_utf8(input@), opts, r),
    {
        DocumentParser::parse_bytes(input.as_bytes(), opts)
    }

    /// Parses a document from bytes with the default options.
    pub fn parse_bytes(input: &[u8]) -> (r: Result<Document, EditXMLError>)
        ensures
            (r matches Ok(doc) ==> doc.wf()),
            parse_outcome(input@, default_read_options(), r),
    {
        DocumentParser::parse_bytes(input, ReadOptions::default())
    }

    /// Parses a document from bytes.
    pub fn parse_bytes_with_opts(input: &[u8], opts: ReadOptions) -> (r: Result<
        Document,
        EditXMLError,
    >)
        ensures
            (r matches Ok(doc) ==> doc.wf()),
            parse_outcome(input@, opts, r),
    {
        DocumentParser::parse_bytes(input, opts)
    }
}

impl core::str::FromStr for Document {
    type Err = EditXMLError;

    fn from_str(s: &str) -> Result<Document, EditXMLError> {
        Document::parse_str(s)
    }
}

} // verus!
