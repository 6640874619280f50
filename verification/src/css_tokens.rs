use vstd::prelude::*;

verus! {

/// The kinds of token the CSS tokenizer produces. Each token stores byte
/// offsets into the original CSS source buffer.
#[derive(Debug, Clone, Copy, PartialEq, Eq, Structural)]
pub enum CssTokenKind {
    /// An identifier: tag names, property names, keyword values.
    Ident,
    /// `#` followed by identifier characters; the range includes the `#`.
    Hash,
    /// A quoted string; the range is the content inside the quotes.
    String,
    /// A plain number: `16`, `1.5`, `0`.
    Number,
    /// A number with a unit suffix: `16px`; the range covers number and unit.
    Dimension,
    /// A number followed by `%`.
    Percentage,
    /// `:`
    Colon,
    /// `;`
    Semicolon,
    /// `,`
    Comma,
    /// `{`
    OpenBrace,
    /// `}`
    CloseBrace,
    /// `.`
    Dot,
    /// A run of whitespace, collapsed into one token.
    Whitespace,
    /// Any other single character, such as `*` or `>`.
    Delim,
    /// `@` followed by identifier characters; the range includes the `@`.
    AtKeyword,
    /// An identifier immediately followed by `(`; the range excludes the `(`.
    Function,
    /// `(`
    OpenParen,
    /// `)`
    CloseParen,
    /// End of input.
    Eof,
}

/// A single CSS token: its kind and the byte range `start..end` it covers
/// in the source buffer.
#[derive(Debug)]
pub struct CssToken {
    pub kind: CssTokenKind,
    pub start: u32,
    pub end: u32,
}

} // verus!
