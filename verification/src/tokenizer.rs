//! Trusted boundary to the outside XML tokenizer.
//!
//! The tokenizer turns decoded text into typed events: start and end
//! tags, text runs, general references, comments, CDATA, processing
//! instructions, doctypes and declarations.  It is the one external
//! collaborator of the parser; everything it hands back is converted to
//! plain values here and consumed by verified code, which states what
//! holds whatever events come back.

use crate::parser::XmlEvent;
use vstd::prelude::*;

verus! {

/// The event sequence the tokenizer yields on the given input text with
/// the given trim setting, each event as its plain-value rendering; a
/// function of the two alone.
pub uninterp spec fn tokenize(text: Seq<u8>, trim: bool) -> Seq<XmlEvent>;

/// The plain-value renderings of the events a reader will still yield.
pub uninterp spec fn reader_events(rd: quick_xml::reader::Reader<&[u8]>) -> Seq<XmlEvent>;

/// The plain-value rendering of one tokenizer event: its kind, names,
/// attribute pairs and payload text.
pub uninterp spec fn plain_of(ev: quick_xml::events::Event<'static>) -> XmlEvent;

/// The kind of a plain event.
pub open spec fn xml_event_kind(e: XmlEvent) -> EventKind {
    match e {
        XmlEvent::Decl { .. } => EventKind::Decl,
        XmlEvent::Start { .. } => EventKind::Start,
        XmlEvent::Empty { .. } => EventKind::Empty,
        XmlEvent::End => EventKind::End,
        XmlEvent::Text(_) => EventKind::Text,
        XmlEvent::CData(_) => EventKind::CData,
        XmlEvent::Comment(_) => EventKind::Comment,
        XmlEvent::PI(_) => EventKind::PI,
        XmlEvent::DocType(_) => EventKind::DocType,
        XmlEvent::GeneralRef(_) => EventKind::GeneralRef,
        XmlEvent::Eof => EventKind::Eof,
    }
}

#[verifier::external_type_specification]
#[verifier::external_body]
#[verifier::reject_recursive_types(R)]
pub struct ExXmlReader<R>(quick_xml::reader::Reader<R>);

#[verifier::external_type_specification]
#[verifier::external_body]
pub struct ExXmlEvent<'a>(quick_xml::events::Event<'a>);

/// The kind of a tokenizer event.
#[derive(Debug, Clone, Copy, PartialEq, Eq, Structural)]
pub enum EventKind {
    /// A start tag.
    Start,
    /// An end tag.
    End,
    /// An empty-element tag.
    Empty,
    /// A text run between tags.
    Text,
    /// A CDATA section.
    CData,
    /// A comment.
    Comment,
    /// An XML declaration.
    Decl,
    /// A processing instruction.
    PI,
    /// A doctype declaration.
    DocType,
    /// A general `&...;` reference inside text.
    GeneralRef,
    /// End of input.
    Eof,
}

/// Relies on `Reader::from_reader` and `Config::trim_text`: builds a
/// tokenizer over the input bytes, trimming text runs when asked to;
/// the reader will yield the event sequence of that input.
#[verifier::external_body]
pub fn tokenizer_new<'a>(input: &'a [u8], trim: bool) -> (r: quick_xml::reader::Reader<&'a [u8]>)
    ensures
        reader_events(r) == tokenize(input@, trim),
{
    let mut rd = quick_xml::reader::Reader::from_reader(input);
    rd.config_mut().trim_text(trim);
    rd
}

/// Relies on `Reader::read_event_into`: yields the next event of the
/// remaining sequence, or the tokenizer's own error rendered as text.
#[verifier::external_body]
pub fn tokenizer_next(rd: &mut quick_xml::reader::Reader<&[u8]>) -> (r: Result<
    quick_xml::events::Event<'static>,
    String,
>)
    ensures
        reader_events(*old(rd)).len() > 0 ==> (r matches Ok(ev) ==> (plain_of(ev)
            == reader_events(*old(rd))[0] && reader_events(*final(rd)) == reader_events(
            *old(rd),
        ).drop_first())),
{
    let mut buf: Vec<u8> = Vec::new();
    match rd.read_event_into(&mut buf) {
        Ok(ev) => Ok(ev.into_owned()),
        Err(err) => Err(err.to_string()),
    }
}

/// Relies on `Reader::buffer_position`: the byte offset consumed from
/// the tokenizer's input so far.
#[verifier::external_body]
pub fn tokenizer_position(rd: &quick_xml::reader::Reader<&[u8]>) -> (r: u64) {
    rd.buffer_position()
}

/// Relies on the `Event` variants: reports which kind of event this is.
#[verifier::external_body]
pub fn event_kind(ev: &quick_xml::events::Event<'static>) -> (r: EventKind)
    ensures
        r == xml_event_kind(plain_of(*ev)),
{
    match ev {
        quick_xml::events::Event::Start(_) => EventKind::Start,
        quick_xml::events::Event::End(_) => EventKind::End,
        quick_xml::events::Event::Empty(_) => EventKind::Empty,
        quick_xml::events::Event::Text(_) => EventKind::Text,
        quick_xml::events::Event::CData(_) => EventKind::CData,
        quick_xml::events::Event::Comment(_) => EventKind::Comment,
        quick_xml::events::Event::Decl(_) => EventKind::Decl,
        quick_xml::events::Event::PI(_) => EventKind::PI,
        quick_xml::events::Event::DocType(_) => EventKind::DocType,
        quick_xml::events::Event::GeneralRef(_) => EventKind::GeneralRef,
        quick_xml::events::Event::Eof => EventKind::Eof,
    }
}

/// Relies on the payload types' `Deref<Target = str>`: the raw text of a
/// text-like event, entities not yet resolved.
#[verifier::external_body]
pub fn event_text(ev: &quick_xml::events::Event<'static>) -> (r: String)
    ensures
        (plain_of(*ev) matches XmlEvent::Text(t) ==> r@ == t@),
        (plain_of(*ev) matches XmlEvent::CData(t) ==> r@ == t@),
        (plain_of(*ev) matches XmlEvent::Comment(t) ==> r@ == t@),
        (plain_of(*ev) matches XmlEvent::PI(t) ==> r@ == t@),
        (plain_of(*ev) matches XmlEvent::DocType(t) ==> r@ == t@),
        (plain_of(*ev) matches XmlEvent::GeneralRef(t) ==> r@ == t@),
{
    match ev {
        quick_xml::events::Event::Text(t) => String::from(&**t),
        quick_xml::events::Event::CData(t) => String::from(&**t),
        quick_xml::events::Event::Comment(t) => String::from(&**t),
        quick_xml::events::Event::DocType(t) => String::from(&**t),
        quick_xml::events::Event::PI(t) => String::from(&**t),
        quick_xml::events::Event::GeneralRef(t) => String::from(&**t),
        _ => String::new(),
    }
}

/// Relies on `BytesStart::name`: the qualified tag name of a start or
/// empty-element event.
#[verifier::external_body]
pub fn event_start_name(ev: &quick_xml::events::Event<'static>) -> (r: String)
    ensures
        (plain_of(*ev) matches XmlEvent::Start { name, .. } ==> r@ == name@),
        (plain_of(*ev) matches XmlEvent::Empty { name, .. } ==> r@ == name@),
{
    match ev {
        quick_xml::events::Event::Start(b) => String::from(b.name().0),
        quick_xml::events::Event::Empty(b) => String::from(b.name().0),
        _ => String::new(),
    }
}

/// Relies on `BytesStart::attributes`: how many attributes the tag's
/// attribute iterator yields.
#[verifier::external_body]
pub fn event_attr_count(ev: &quick_xml::events::Event<'static>) -> (r: usize)
    ensures
        (plain_of(*ev) matches XmlEvent::Start { attrs, .. } ==> r == attrs@.len()),
        (plain_of(*ev) matches XmlEvent::Empty { attrs, .. } ==> r == attrs@.len()),
{
    match ev {
        quick_xml::events::Event::Start(b) => b.attributes().count(),
        quick_xml::events::Event::Empty(b) => b.attributes().count(),
        _ => 0,
    }
}

/// Relies on `BytesStart::attributes`: the `i`-th attribute as raw name
/// and raw, still-escaped value, or the iterator's error rendered as
/// text.  The iterator is fused, so positions past the count are absent.
#[verifier::external_body]
pub fn event_attr_at(ev: &quick_xml::events::Event<'static>, i: usize) -> (r: Option<
    Result<(String, String), String>,
>)
    ensures
        (plain_of(*ev) matches XmlEvent::Start { attrs, .. } ==> (match r {
            None => i >= attrs@.len(),
            Some(Ok(p)) => i < attrs@.len() && p.0@ == attrs@[i as int].0@ && p.1@ == attrs@[
                i as int].1@,
            Some(Err(_)) => true,
        })),
        (plain_of(*ev) matches XmlEvent::Empty { attrs, .. } ==> (match r {
            None => i >= attrs@.len(),
            Some(Ok(p)) => i < attrs@.len() && p.0@ == attrs@[i as int].0@ && p.1@ == attrs@[
                i as int].1@,
            Some(Err(_)) => true,
        })),
{
    let attrs = match ev {
        quick_xml::events::Event::Start(b) => b.attributes(),
        quick_xml::events::Event::Empty(b) => b.attributes(),
        _ => return None,
    };
    attrs.into_iter().nth(i).map(|res| match res {
        Ok(a) => Ok((String::from(a.key.0), a.value.into_owned())),
        Err(err) => Err(err.to_string()),
    })
}

/// Relies on `BytesDecl::version`, `encoding` and `standalone`: the
/// parts of an XML declaration, or the tokenizer's error as text.
#[verifier::external_body]
pub fn event_decl_parts(ev: &quick_xml::events::Event<'static>) -> (r: Result<
    (String, Option<String>, Option<String>),
    String,
>)
    ensures
        (plain_of(*ev) matches XmlEvent::Decl { version, encoding, standalone } ==> (r matches Ok(
            p,
        ) ==> (p.0@ == version@ && (match (p.1, encoding) {
            (Some(a), Some(b)) => a@ == b@,
            (None, None) => true,
            _ => false,
        }) && (match (p.2, standalone) {
            (Some(a), Some(b)) => a@ == b@,
            (None, None) => true,
            _ => false,
        })))),
{
    match ev {
        quick_xml::events::Event::Decl(d) => {
            let version = d.version().map_err(|e| e.to_string())?.into_owned();
            let encoding = match d.encoding() {
                Some(res) => Some(res.map_err(|e| e.to_string())?.into_owned()),
                None => None,
            };
            let standalone = match d.standalone() {
                Some(res) => Some(res.map_err(|e| e.to_string())?.into_owned()),
                None => None,
            };
            Ok((version, encoding, standalone))
        },
        _ => Err(String::new()),
    }
}

} // verus!
