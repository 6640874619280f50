//! Token-level data shared between the HTML tokenizer and the DOM.

use vstd::prelude::*;

verus! {

/// An attribute of a start tag, as byte ranges into the source buffer:
/// the name is `name_start..name_end`, the value `value_start..value_end`
/// (both zero when the attribute has no value).
#[derive(Debug, Clone, Copy, PartialEq, Eq, Structural)]
pub struct Attribute {
    pub name_start: u32,
    pub name_end: u32,
    pub value_start: u32,
    pub value_end: u32,
}

/// What a token of the HTML tokenizer is.
#[derive(Debug, Clone, Copy, PartialEq, Eq, Structural)]
pub enum TokenKind {
    /// `<!DOCTYPE ...>`
    Doctype,
    /// `<name ...>`; the range is the tag name.
    StartTag,
    /// `</name>`; the range is the tag name.
    EndTag,
    /// `<name .../>`; the range is the tag name.
    SelfClosingTag,
    /// Text between tags; the range is the raw text.
    Text,
    /// `<!-- ... -->`; the range is the comment body.
    Comment,
    /// The end of the input.
    Eof,
}

/// A token: its kind, the byte range `start..end` it names in the source
/// buffer, and, for tags, its attributes.
#[derive(Debug, Clone)]
pub struct Token {
    pub kind: TokenKind,
    pub start: u32,
    pub end: u32,
    pub attributes: Vec<Attribute>,
}

} // verus!
