//! Error taxonomy: I/O failures, decode failures, malformed documents,
//! tree-mutation rejections, and wrapped tokenizer errors.

use vstd::prelude::*;

verus! {

/// Why a character or entity reference could not be parsed.
#[derive(Debug, Clone)]
pub enum ParseCharRefError {
    /// The number began with `+` or `-`.
    UnexpectedSign,
    /// The digits did not form a number that fits in 32 bits.
    InvalidNumber,
    /// The reference named the illegal character 0.
    IllegalCharacter(u32),
    /// The number is not a Unicode scalar value.
    InvalidCodepoint(u32),
}

/// Why an escaped string could not be unescaped.
#[derive(Debug, Clone)]
pub enum EscapeError {
    /// A `&` with no closing `;` before the next `&` or the end of input.
    UnterminatedEntity,
    /// An entity name that is not one of the predefined XML entities.
    UnrecognizedEntity,
    /// A malformed `&#...;` character reference.
    InvalidCharRef(ParseCharRefError),
}

/// Structural violations found while building a document.
#[derive(Debug, Clone)]
pub enum MalformedReason {
    /// The document does not begin with an XML declaration although one
    /// was required.
    MissingDeclaration,
    /// An item appeared where it is not allowed, such as a declaration
    /// after the first event.
    UnexpectedItem(&'static str),
    /// The element stack was in an inconsistent state.
    GenericMalformedTree,
    /// The declaration's standalone value was neither `yes` nor `no`.
    InvalidStandAloneValue,
    /// End of input arrived while elements were still open.
    MissingClosingTag,
}

/// Bytes could not be interpreted under the active or declared encoding.
#[derive(Debug, Clone)]
pub enum DecodeError {
    /// A byte sequence was not valid UTF-8.
    UTF8,
    /// An owned byte buffer was not valid UTF-8.
    FromUTF8,
    /// Some other decoding failure.
    Other,
    /// The declared encoding label names no known encoding.
    MissingEncoding,
    /// An entity or character reference was malformed.
    EscapeError(EscapeError),
}

/// Every failure this library reports.
#[derive(Debug, Clone)]
pub enum EditXMLError {
    /// The underlying source or sink reported an error.
    Io(String),
    /// Bytes could not be decoded.
    CannotDecode(DecodeError),
    /// Structural violation while parsing.
    MalformedXML(MalformedReason),
    /// The container element can never be given a parent.
    ContainerCannotMove,
    /// The element already has a parent; it must be detached first.
    HasAParent,
    /// The tokenizer rejected an attribute list.
    AttrError(String),
    /// Any other error the tokenizer reported, such as a tag mismatch.
    OtherXML(String),
}

impl EditXMLError {
    /// True exactly for the two tree-mutation rejections, the only errors
    /// meant to be handled and retried by calling code.
    pub fn is_mutation_rejection(&self) -> (r: bool)
        ensures
            r == (self is ContainerCannotMove || self is HasAParent),
    {
        match self {
            EditXMLError::ContainerCannotMove => true,
            EditXMLError::HasAParent => true,
            _ => false,
        }
    }
}

} // verus!
