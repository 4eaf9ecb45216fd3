//! An XML document model: parse a byte stream into an arena-backed tree,
//! mutate the tree while keeping parent/child links consistent, and write
//! it back out as well-formed XML text.
//!
//! The low-level tokenizer (bytes to start/end/text/... events) and the
//! character-set transcoder are outside collaborators; everything built on
//! top of them — the arena store, the tree mutation rules, namespace
//! resolution, entity escaping and unescaping, whitespace policy, the
//! parser state machine and the serializer — is verified here.

pub mod decoding;
pub mod document;
pub mod element;
pub mod error;
pub mod node;
pub mod parser;
pub(crate) mod tokenizer;
pub mod types;
pub mod utils;

pub use document::{Document, WriteOptions};
pub use element::builder::ElementBuilder;
pub use element::Element;
pub use error::{DecodeError, EditXMLError, EscapeError, MalformedReason, ParseCharRefError};
pub use node::Node;
pub use parser::{DocumentParser, ReadOptions, ReadOptionsOptimizations, XmlEvent};
pub use types::StandaloneValue;
pub use utils::{is_whitespace, is_xlmns, normalize_space, only_has_whitespace};
