//! Trusted boundary to the outside character-set transcoder, and the
//! verified encoding sniffer.
//!
//! Encodings are carried through the library as their canonical names,
//! plain strings, so that the verified logic can compare and branch on
//! them; only the label lookup and the transcoding itself are outside
//! calls.

use vstd::prelude::*;

verus! {

/// The canonical name of the encoding a label resolves to, if the label
/// names one; a function of the label alone.
pub uninterp spec fn encoding_lookup(label: Seq<u8>) -> Option<Seq<char>>;

/// The text that decoding `bytes` under the encoding with canonical name
/// `encoding` yields; a function of the two alone.  Byte sequences that
/// cannot be decoded come out as replacement characters, so decoding
/// itself never fails.
pub uninterp spec fn transcode(encoding: Seq<char>, bytes: Seq<u8>) -> Seq<char>;

/// Relies on `encoding_rs::Encoding::for_label` and `Encoding::name`:
/// the canonical name of the encoding the label names, or `None` for an
/// unknown label; the result depends on the label alone.
#[verifier::external_body]
pub(crate) fn canonical_encoding_label(label: &[u8]) -> (r: Option<String>)
    ensures
        (match encoding_lookup(label@) {
            Some(n) => r matches Some(s) && s@ == n,
            None => r is None,
        }),
{
    encoding_rs::Encoding::for_label(label).map(|e| String::from(e.name()))
}

/// Relies on `encoding_rs::Encoding::decode_without_bom_handling`:
/// transcodes the bytes to text under the named encoding, replacing
/// undecodable sequences; `None` when the name labels no encoding.  The
/// result depends on the name and the bytes alone.
#[verifier::external_body]
pub(crate) fn decode_bytes(encoding: &str, bytes: &[u8]) -> (r: Option<String>)
    ensures
        (r matches Some(s) ==> s@ == transcode(encoding@, bytes@)),
        r is Some <==> encoding_lookup(vstd::utf8::encode_utf8(encoding@)) is Some,
{
    encoding_rs::Encoding::for_label(encoding.as_bytes()).map(
        |e| e.decode_without_bom_handling(bytes).0.into_owned(),
    )
}

/// Which UTF-16 variant the leading bytes announce.
#[derive(Debug, Clone, Copy, PartialEq, Eq, Structural)]
pub enum Utf16Kind {
    /// Big-endian.
    Be,
    /// Little-endian.
    Le,
}

/// What sniffing the leading bytes found: an announced UTF-16 variant,
/// or none (treat as UTF-8), and how many byte-order-mark bytes to skip.
#[derive(Debug, Clone, Copy, PartialEq, Eq, Structural)]
pub struct SniffResult {
    /// The UTF-16 variant, if one was announced.
    pub utf16: Option<Utf16Kind>,
    /// How many leading byte-order-mark bytes are consumed.
    pub bom_len: usize,
}

/// The encoding the leading bytes announce: a `<?` prefix means
/// ASCII-compatible input, a UTF-16 byte-order mark names its variant
/// and is consumed, a UTF-8 mark is consumed without naming one, and the
/// two mark-less UTF-16 patterns of `<?` name their variant without
/// consuming anything.  Anything else is treated as UTF-8.
pub open spec fn sniff_spec(b: Seq<u8>) -> SniffResult {
    if b.len() >= 2 && b[0] == 0x3c && b[1] == 0x3f {
        SniffResult { utf16: None, bom_len: 0 }
    } else if b.len() >= 2 && b[0] == 0xfe && b[1] == 0xff {
        SniffResult { utf16: Some(Utf16Kind::Be), bom_len: 2 }
    } else if b.len() >= 2 && b[0] == 0xff && b[1] == 0xfe {
        SniffResult { utf16: Some(Utf16Kind::Le), bom_len: 2 }
    } else if b.len() >= 3 && b[0] == 0xef && b[1] == 0xbb && b[2] == 0xbf {
        SniffResult { utf16: None, bom_len: 3 }
    } else if b.len() >= 4 && b[0] == 0x00 && b[1] == 0x3c && b[2] == 0x00 && b[3] == 0x3f {
        SniffResult { utf16: Some(Utf16Kind::Be), bom_len: 0 }
    } else if b.len() >= 4 && b[0] == 0x3c && b[1] == 0x00 && b[2] == 0x3f && b[3] == 0x00 {
        SniffResult { utf16: Some(Utf16Kind::Le), bom_len: 0 }
    } else {
        SniffResult { utf16: None, bom_len: 0 }
    }
}

/// Inspects the leading bytes of the input for a byte-order mark or a
/// UTF-16 declaration opener, before any declared encoding is known.
pub fn sniff_encoding(bytes: &[u8]) -> (r: SniffResult)
    ensures
        r == sniff_spec(bytes@),
        r.bom_len <= bytes@.len(),
{
    let n = bytes.len();
    if n >= 2 && bytes[0] == 0x3c && bytes[1] == 0x3f {
        SniffResult { utf16: None, bom_len: 0 }
    } else if n >= 2 && bytes[0] == 0xfe && bytes[1] == 0xff {
        SniffResult { utf16: Some(Utf16Kind::Be), bom_len: 2 }
    } else if n >= 2 && bytes[0] == 0xff && bytes[1] == 0xfe {
        SniffResult { utf16: Some(Utf16Kind::Le), bom_len: 2 }
    } else if n >= 3 && bytes[0] == 0xef && bytes[1] == 0xbb && bytes[2] == 0xbf {
        SniffResult { utf16: None, bom_len: 3 }
    } else if n >= 4 && bytes[0] == 0x00 && bytes[1] == 0x3c && bytes[2] == 0x00 && bytes[3]
        == 0x3f {
        SniffResult { utf16: Some(Utf16Kind::Be), bom_len: 0 }
    } else if n >= 4 && bytes[0] == 0x3c && bytes[1] == 0x00 && bytes[2] == 0x3f && bytes[3]
        == 0x00 {
        SniffResult { utf16: Some(Utf16Kind::Le), bom_len: 0 }
    } else {
        SniffResult { utf16: None, bom_len: 0 }
    }
}

} // verus!
