#![verifier::loop_isolation(false)]

use vstd::prelude::*;

use crate::css_tokens::{CssToken, CssTokenKind};

verus! {

// ─── Byte classes ────────────────────────────────────────────────

/// ASCII letter or `_`: a byte that can start an identifier.
pub open spec fn spec_is_ident_start(b: u8) -> bool {
    (65 <= b <= 90) || (97 <= b <= 122) || b == 95
}

/// ASCII digit.
pub open spec fn spec_is_digit(b: u8) -> bool {
    48 <= b <= 57
}

/// ASCII letter, digit, `_` or `-`: a byte that can continue an identifier.
pub open spec fn spec_is_ident_char(b: u8) -> bool {
    spec_is_ident_start(b) || spec_is_digit(b) || b == 45
}

/// ASCII whitespace as `u8::is_ascii_whitespace` defines it:
/// space, tab, line feed, form feed, carriage return.
pub open spec fn spec_is_space(b: u8) -> bool {
    b == 32 || b == 9 || b == 10 || b == 12 || b == 13
}

/// The byte classes whose maximal runs the tokenizer consumes.
pub enum ByteClass {
    IdentChar,
    Digit,
    Space,
}

pub open spec fn in_class(c: ByteClass, b: u8) -> bool {
    match c {
        ByteClass::IdentChar => spec_is_ident_char(b),
        ByteClass::Digit => spec_is_digit(b),
        ByteClass::Space => spec_is_space(b),
    }
}

/// End of the maximal run of bytes of class `c` starting at `p`.
pub open spec fn run_end(s: Seq<u8>, p: int, c: ByteClass) -> int
    decreases s.len() - p,
{
    if p < 0 || p >= s.len() {
        p
    } else if in_class(c, s[p]) {
        run_end(s, p + 1, c)
    } else {
        p
    }
}

// ─── The token stream, as a function of the input ────────────────

/// The token `kind` covering `a..b`, with offsets stored as `u32`.
pub open spec fn tok(kind: CssTokenKind, a: int, b: int) -> CssToken {
    CssToken { kind, start: a as u32, end: b as u32 }
}

/// Where a comment whose body starts at `q` ends: just past the first `*/`,
/// or at the end of input when the comment is unterminated.
pub open spec fn comment_end(s: Seq<u8>, q: int) -> int
    decreases s.len() - q,
{
    if q < 0 || q + 1 >= s.len() {
        s.len() as int
    } else if s[q] == 42 && s[q + 1] == 47 {
        q + 2
    } else {
        comment_end(s, q + 1)
    }
}

/// Scanning a quoted string whose content starts at `q`: the end of the
/// content and the position after the closing quote. A backslash escapes the
/// byte after it; an unterminated string runs to the end of input.
pub open spec fn string_scan(s: Seq<u8>, quote: u8, q: int) -> (int, int)
    decreases s.len() - q,
{
    if q < 0 || q >= s.len() {
        (s.len() as int, s.len() as int)
    } else if s[q] == quote {
        (q, q + 1)
    } else if s[q] == 92 && q + 1 < s.len() {
        string_scan(s, quote, q + 2)
    } else {
        string_scan(s, quote, q + 1)
    }
}

/// End of the number part (optional `-`, digits, optional `.digits`) of a
/// numeric token starting at `p`.
pub open spec fn number_end(s: Seq<u8>, p: int) -> int {
    let p1 = if p < s.len() && s[p] == 45 { p + 1 } else { p };
    let p2 = run_end(s, p1, ByteClass::Digit);
    if p2 + 1 < s.len() && s[p2] == 46 && spec_is_digit(s[p2 + 1]) {
        run_end(s, p2 + 1, ByteClass::Digit)
    } else {
        p2
    }
}

/// The numeric token starting at `p`: a percentage, a dimension or a number.
pub open spec fn numeric_token(s: Seq<u8>, p: int) -> (CssToken, int) {
    let q = number_end(s, p);
    if q < s.len() && s[q] == 37 {
        (tok(CssTokenKind::Percentage, p, q + 1), q + 1)
    } else if q < s.len() && spec_is_ident_start(s[q]) {
        let e = run_end(s, q, ByteClass::IdentChar);
        (tok(CssTokenKind::Dimension, p, e), e)
    } else {
        (tok(CssTokenKind::Number, p, q), q)
    }
}

/// The identifier or function token starting at `p`.
pub open spec fn ident_token(s: Seq<u8>, p: int) -> (CssToken, int) {
    let p1 = if p < s.len() && s[p] == 45 { p + 1 } else { p };
    let e = run_end(s, p1, ByteClass::IdentChar);
    if e < s.len() && s[e] == 40 {
        (tok(CssTokenKind::Function, p, e), e)
    } else {
        (tok(CssTokenKind::Ident, p, e), e)
    }
}

/// The kind of a one-byte token.
pub open spec fn single_kind(b: u8) -> CssTokenKind {
    if b == 58 {
        CssTokenKind::Colon
    } else if b == 59 {
        CssTokenKind::Semicolon
    } else if b == 44 {
        CssTokenKind::Comma
    } else if b == 123 {
        CssTokenKind::OpenBrace
    } else if b == 125 {
        CssTokenKind::CloseBrace
    } else if b == 40 {
        CssTokenKind::OpenParen
    } else if b == 41 {
        CssTokenKind::CloseParen
    } else if b == 46 {
        CssTokenKind::Dot
    } else {
        CssTokenKind::Delim
    }
}

/// One step of the tokenizer at position `p` (with `p < s.len()`): the token
/// emitted, if any (a comment emits none), and the position after it.
pub open spec fn step(s: Seq<u8>, p: int) -> (Option<CssToken>, int) {
    let b = s[p];
    if b == 32 || b == 9 || b == 10 || b == 13 {
        let e = run_end(s, p, ByteClass::Space);
        (Some(tok(CssTokenKind::Whitespace, p, e)), e)
    } else if b == 47 && p + 1 < s.len() && s[p + 1] == 42 {
        (None, comment_end(s, p + 2))
    } else if b == 34 || b == 39 {
        let (e, n) = string_scan(s, b, p + 1);
        (Some(tok(CssTokenKind::String, p + 1, e)), n)
    } else if b == 35 {
        let e = run_end(s, p + 1, ByteClass::IdentChar);
        (Some(tok(CssTokenKind::Hash, p, e)), e)
    } else if b == 64 {
        let e = run_end(s, p + 1, ByteClass::IdentChar);
        (Some(tok(CssTokenKind::AtKeyword, p, e)), e)
    } else if spec_is_digit(b) {
        let (t, e) = numeric_token(s, p);
        (Some(t), e)
    } else if spec_is_ident_start(b) {
        let (t, e) = ident_token(s, p);
        (Some(t), e)
    } else if b == 45 && p + 1 < s.len() && spec_is_digit(s[p + 1]) {
        let (t, e) = numeric_token(s, p);
        (Some(t), e)
    } else if b == 45 && p + 1 < s.len() && (spec_is_ident_start(s[p + 1]) || s[p + 1] == 45) {
        let (t, e) = ident_token(s, p);
        (Some(t), e)
    } else {
        (Some(tok(single_kind(b), p, p + 1)), p + 1)
    }
}

/// The tokens produced from position `p` to the end of input, ending with
/// an `Eof` token at the end position.
pub open spec fn tokens_from(s: Seq<u8>, p: int) -> Seq<CssToken>
    decreases s.len() - p,
{
    if p < 0 || p >= s.len() {
        seq![tok(CssTokenKind::Eof, p, p)]
    } else {
        let (t, n) = step(s, p);
        if p < n <= s.len() {
            match t {
                Some(t) => seq![t] + tokens_from(s, n),
                None => tokens_from(s, n),
            }
        } else {
            seq![]
        }
    }
}

/// The token stream of a whole CSS source.
pub open spec fn spec_tokenize(s: Seq<u8>) -> Seq<CssToken> {
    tokens_from(s, 0)
}

// ─── Lemmas ──────────────────────────────────────────────────────

pub proof fn lemma_run_end(s: Seq<u8>, p: int, c: ByteClass)
    requires
        0 <= p <= s.len(),
    ensures
        p <= run_end(s, p, c) <= s.len(),
        forall|i: int| p <= i < run_end(s, p, c) ==> in_class(c, #[trigger] s[i]),
        run_end(s, p, c) < s.len() ==> !in_class(c, s[run_end(s, p, c)]),
    decreases s.len() - p,
{
    if p < s.len() && in_class(c, s[p]) {
        lemma_run_end(s, p + 1, c);
    }
}

pub proof fn lemma_comment_end(s: Seq<u8>, q: int)
    requires
        0 <= q <= s.len(),
    ensures
        q <= comment_end(s, q) <= s.len(),
    decreases s.len() - q,
{
    if q + 1 < s.len() && !(s[q] == 42 && s[q + 1] == 47) {
        lemma_comment_end(s, q + 1);
    }
}

pub proof fn lemma_string_scan(s: Seq<u8>, quote: u8, q: int)
    requires
        0 <= q <= s.len(),
    ensures
        q <= string_scan(s, quote, q).0 < string_scan(s, quote, q).1 <= s.len() || (
        string_scan(s, quote, q).0 == string_scan(s, quote, q).1 == s.len()),
        q <= string_scan(s, quote, q).0,
    decreases s.len() - q,
{
    if q < s.len() && s[q] != quote {
        if s[q] == 92 && q + 1 < s.len() {
            lemma_string_scan(s, quote, q + 2);
        } else {
            lemma_string_scan(s, quote, q + 1);
        }
    }
}

/// Each step of the tokenizer makes progress and stays within the input.
pub proof fn lemma_step_advances(s: Seq<u8>, p: int)
    requires
        0 <= p < s.len(),
    ensures
        p < step(s, p).1 <= s.len(),
{
    let b = s[p];
    lemma_run_end(s, p, ByteClass::Space);
    lemma_run_end(s, p + 1, ByteClass::IdentChar);
    lemma_run_end(s, p, ByteClass::IdentChar);
    if p + 2 <= s.len() {
        lemma_comment_end(s, p + 2);
    }
    lemma_string_scan(s, b, p + 1);
    if spec_is_digit(b) || (b == 45 && p + 1 < s.len() && spec_is_digit(s[p + 1])) {
        lemma_numeric_token(s, p);
    }
    if spec_is_ident_start(b) || (b == 45 && p + 1 < s.len() && (spec_is_ident_start(s[p + 1]) || s[p + 1] == 45)) {
        lemma_ident_token(s, p);
    }
}

pub proof fn lemma_numeric_token(s: Seq<u8>, p: int)
    requires
        0 <= p < s.len(),
        spec_is_digit(s[p]) || (s[p] == 45 && p + 1 < s.len() && spec_is_digit(s[p + 1])),
    ensures
        p < numeric_token(s, p).1 <= s.len(),
{
    let p1 = if s[p] == 45 { p + 1 } else { p };
    lemma_run_end(s, p1, ByteClass::Digit);
    let p2 = run_end(s, p1, ByteClass::Digit);
    if p2 + 1 < s.len() {
        lemma_run_end(s, p2 + 1, ByteClass::Digit);
    }
    let q = number_end(s, p);
    if q < s.len() {
        lemma_run_end(s, q, ByteClass::IdentChar);
    }
}

pub proof fn lemma_ident_token(s: Seq<u8>, p: int)
    requires
        0 <= p < s.len(),
        spec_is_ident_start(s[p]) || (s[p] == 45 && p + 1 < s.len() && (spec_is_ident_start(s[p + 1]) || s[p + 1] == 45)),
    ensures
        p < ident_token(s, p).1 <= s.len(),
{
    let p1 = if s[p] == 45 { p + 1 } else { p };
    lemma_run_end(s, p1, ByteClass::IdentChar);
}

/// Unfolding `tokens_from` by one step.
pub proof fn lemma_tokens_from_unfold(s: Seq<u8>, p: int)
    requires
        0 <= p < s.len(),
    ensures
        tokens_from(s, p) == (match step(s, p).0 {
            Some(t) => seq![t] + tokens_from(s, step(s, p).1),
            None => tokens_from(s, step(s, p).1),
        }),
{
    lemma_step_advances(s, p);
}

proof fn lemma_step_token(s: Seq<u8>, p: int)
    requires
        0 <= p < s.len(),
        s.len() <= u32::MAX,
    ensures
        step(s, p).0 matches Some(t) ==> p <= t.start && t.start <= t.end && t.end <= step(s, p).1,
        step(s, p).0 matches Some(t) ==> (t.kind == CssTokenKind::Hash ==> t.start == p && s[p] == 35),
        step(s, p).0 matches Some(t) ==> t.kind != CssTokenKind::Eof,
{
    lemma_step_advances(s, p);
    let b = s[p];
    lemma_run_end(s, p, ByteClass::Space);
    lemma_run_end(s, p + 1, ByteClass::IdentChar);
    lemma_string_scan(s, b, p + 1);
    if spec_is_digit(b) || (b == 45 && p + 1 < s.len() && spec_is_digit(s[p + 1])) {
        lemma_numeric_token(s, p);
        let p1 = if s[p] == 45 { p + 1 } else { p };
        lemma_run_end(s, p1, ByteClass::Digit);
        let p2 = run_end(s, p1, ByteClass::Digit);
        if p2 + 1 < s.len() {
            lemma_run_end(s, p2 + 1, ByteClass::Digit);
        }
    }
    if spec_is_ident_start(b) || (b == 45 && p + 1 < s.len() && (spec_is_ident_start(s[p + 1]) || s[p + 1] == 45)) {
        lemma_ident_token(s, p);
        let p1 = if s[p] == 45 { p + 1 } else { p };
        lemma_run_end(s, p1, ByteClass::IdentChar);
    }
}

/// Every token the tokenizer produces from position `p` lies within the
/// input: its byte range starts at or after `p`, is not reversed, and ends
/// within the input; a `Hash` token starts at a `#`. The stream ends with
/// an `Eof` token at the end of the input and holds no other `Eof`.
pub proof fn lemma_tokens_within_input(s: Seq<u8>, p: int)
    requires
        0 <= p <= s.len(),
        s.len() <= u32::MAX,
    ensures
        tokens_from(s, p).len() >= 1,
        tokens_from(s, p).last() == tok(CssTokenKind::Eof, s.len() as int, s.len() as int),
        forall|i: int|
            0 <= i < tokens_from(s, p).len() ==> p <= (#[trigger] tokens_from(s, p)[i]).start
                && tokens_from(s, p)[i].start <= tokens_from(s, p)[i].end && tokens_from(s, p)[i].end
                <= s.len(),
        forall|i: int|
            0 <= i < tokens_from(s, p).len() && (#[trigger] tokens_from(s, p)[i]).kind
                == CssTokenKind::Hash ==> s[tokens_from(s, p)[i].start as int] == 35,
        forall|i: int|
            0 <= i < tokens_from(s, p).len() - 1 ==> (#[trigger] tokens_from(s, p)[i]).kind
                != CssTokenKind::Eof,
    decreases s.len() - p,
{
    if p < s.len() {
        lemma_tokens_from_unfold(s, p);
        lemma_step_token(s, p);
        lemma_step_advances(s, p);
        let (t, n) = step(s, p);
        lemma_tokens_within_input(s, n);
        let rest = tokens_from(s, n);
        match t {
            Some(t) => {
                let all = seq![t] + rest;
                assert(tokens_from(s, p) == all);
                assert forall|i: int| 0 <= i < all.len() implies p <= (#[trigger] all[i]).start
                    && all[i].start <= all[i].end && all[i].end <= s.len() by {
                    if i > 0 {
                        assert(all[i] == rest[i - 1]);
                    }
                }
                assert forall|i: int| 0 <= i < all.len() && (#[trigger] all[i]).kind == CssTokenKind::Hash
                    implies s[all[i].start as int] == 35 by {
                    if i > 0 {
                        assert(all[i] == rest[i - 1]);
                    }
                }
                assert forall|i: int| 0 <= i < all.len() - 1 implies (#[trigger] all[i]).kind
                    != CssTokenKind::Eof by {
                    if i > 0 {
                        assert(all[i] == rest[i - 1]);
                    }
                }
            },
            None => {},
        }
    }
}

// ─── The tokenizer ───────────────────────────────────────────────

/// Consumes a CSS byte slice and produces zero-copy tokens: comments are
/// skipped, whitespace runs collapse into one token, and unrecognised
/// bytes become `Delim` tokens.
pub struct CssTokenizer<'a> {
    input: &'a [u8],
    pos: usize,
    tokens: Vec<CssToken>,
}

impl<'a> CssTokenizer<'a> {
    /// The position never passes the end of the input.
    pub closed spec fn wf(&self) -> bool {
        &&& self.pos <= self.input@.len()
        &&& self.input@.len() <= usize::MAX
    }

    /// The input being tokenized.
    pub closed spec fn input_view(&self) -> Seq<u8> {
        self.input@
    }

    pub closed spec fn pos_view(&self) -> int {
        self.pos as int
    }

    pub closed spec fn tokens_view(&self) -> Seq<CssToken> {
        self.tokens@
    }

    pub fn new(input: &'a [u8]) -> (t: Self)
        ensures
            t.wf(),
            t.input_view() == input@,
            t.pos_view() == 0,
            t.tokens_view() == Seq::<CssToken>::empty(),
    {
        let n = input.len();
        assert(n == input@.len());
        CssTokenizer { input, pos: 0, tokens: Vec::new() }
    }

    /// Run the tokenizer and return all tokens produced from the current
    /// position to the end of the input, ending with `Eof`.
    pub fn tokenize(&mut self) -> (res: Vec<CssToken>)
        requires
            old(self).wf(),
        ensures
            res@ == old(self).tokens_view() + tokens_from(
                old(self).input_view(),
                old(self).pos_view(),
            ),
            final(self).wf(),
            final(self).input_view() == old(self).input_view(),
            final(self).pos_view() == old(self).input_view().len(),
            final(self).tokens_view() == Seq::<CssToken>::empty(),
    {
        let ghost s = self.input@;
        let ghost target = old(self).tokens@ + tokens_from(s, old(self).pos as int);
        while self.pos < self.input.len()
            invariant
                self.wf(),
                self.input@ == s,
                self.tokens@ + tokens_from(s, self.pos as int) == target,
            decreases s.len() - self.pos,
        {
            let ghost p = self.pos as int;
            let ghost old_tokens = self.tokens@;
            proof {
                lemma_tokens_from_unfold(s, p);
                lemma_step_advances(s, p);
            }
            self.scan_token();
            proof {
                match step(s, p).0 {
                    Some(t) => {
                        assert(old_tokens.push(t) + tokens_from(s, self.pos as int) =~= old_tokens
                            + (seq![t] + tokens_from(s, self.pos as int)));
                    },
                    None => {},
                }
            }
        }
        let end = #[verifier::truncate] (self.pos as u32);
        self.tokens.push(CssToken { kind: CssTokenKind::Eof, start: end, end });
        assert(self.tokens@ =~= target);
        let mut out: Vec<CssToken> = Vec::new();
        std::mem::swap(&mut out, &mut self.tokens);
        out
    }

    /// Recognise and consume the token that starts at the current position.
    fn scan_token(&mut self)
        requires
            old(self).wf(),
            old(self).pos < old(self).input@.len(),
        ensures
            final(self).wf(),
            final(self).input@ == old(self).input@,
            final(self).pos == step(old(self).input@, old(self).pos as int).1,
            final(self).tokens@ == (match step(old(self).input@, old(self).pos as int).0 {
                Some(t) => old(self).tokens@.push(t),
                None => old(self).tokens@,
            }),
    {
        let ghost s = self.input@;
        let ghost p = self.pos as int;
        let byte = self.input[self.pos];
        if byte == 32u8 || byte == 9u8 || byte == 10u8 || byte == 13u8 {
            self.consume_whitespace();
        } else if byte == 47u8 && self.peek_at(1) == Some(42u8) {
            self.skip_comment();
        } else if byte == 34u8 || byte == 39u8 {
            self.consume_string(byte);
        } else if byte == 35u8 || byte == 64u8 {
            // Hash (`#id`, `#fff`) and at-keywords (`@media`): the marker
            // byte followed by identifier characters.
            let start = #[verifier::truncate] (self.pos as u32);
            self.pos += 1;
            while self.pos < self.input.len() && is_ident_char(self.input[self.pos])
                invariant
                    p + 1 <= self.pos <= s.len(),
                    self.input@ == s,
                    s.len() <= usize::MAX,
                    self.tokens@ == old(self).tokens@,
                    run_end(s, self.pos as int, ByteClass::IdentChar) == run_end(
                        s,
                        p + 1,
                        ByteClass::IdentChar,
                    ),
                decreases s.len() - self.pos,
            {
                self.pos += 1;
            }
            let kind = if byte == 35u8 {
                CssTokenKind::Hash
            } else {
                CssTokenKind::AtKeyword
            };
            self.tokens.push(CssToken { kind, start, end: #[verifier::truncate] (self.pos as u32) });
        } else if 48u8 <= byte && byte <= 57u8 {
            self.consume_numeric();
        } else if is_ident_start(byte) {
            self.consume_ident_or_function();
        } else if byte == 45u8 && self.pos + 1 < self.input.len() && (48u8 <= self.input[self.pos
            + 1] && self.input[self.pos + 1] <= 57u8 || is_ident_start(self.input[self.pos + 1]) || self.input[self.pos + 1] == 45u8) {
            if 48u8 <= self.input[self.pos + 1] && self.input[self.pos + 1] <= 57u8 {
                self.consume_numeric();
            } else {
                self.consume_ident_or_function();
            }
        } else if byte == 58u8 {
            self.emit_single(CssTokenKind::Colon);
        } else if byte == 59u8 {
            self.emit_single(CssTokenKind::Semicolon);
        } else if byte == 44u8 {
            self.emit_single(CssTokenKind::Comma);
        } else if byte == 123u8 {
            self.emit_single(CssTokenKind::OpenBrace);
        } else if byte == 125u8 {
            self.emit_single(CssTokenKind::CloseBrace);
        } else if byte == 40u8 {
            self.emit_single(CssTokenKind::OpenParen);
        } else if byte == 41u8 {
            self.emit_single(CssTokenKind::CloseParen);
        } else if byte == 46u8 {
            self.emit_single(CssTokenKind::Dot);
        } else {
            self.emit_single(CssTokenKind::Delim);
        }
    }

    // ─── Consumers ───────────────────────────────────────────────

    /// Consume a run of whitespace into one `Whitespace` token.
    fn consume_whitespace(&mut self)
        requires
            old(self).wf(),
        ensures
            final(self).wf(),
            final(self).input@ == old(self).input@,
            final(self).pos == run_end(old(self).input@, old(self).pos as int, ByteClass::Space),
            final(self).tokens@ == old(self).tokens@.push(
                tok(CssTokenKind::Whitespace, old(self).pos as int, final(self).pos as int),
            ),
    {
        let ghost s = self.input@;
        let ghost p = self.pos as int;
        let start = #[verifier::truncate] (self.pos as u32);
        while self.pos < self.input.len() && is_ascii_space(self.input[self.pos])
            invariant
                p <= self.pos <= s.len(),
                self.input@ == s,
                s.len() <= usize::MAX,
                self.tokens@ == old(self).tokens@,
                run_end(s, self.pos as int, ByteClass::Space) == run_end(s, p, ByteClass::Space),
            decreases s.len() - self.pos,
        {
            self.pos += 1;
        }
        self.tokens.push(CssToken { kind: CssTokenKind::Whitespace, start, end: #[verifier::truncate] (self.pos as u32) });
    }

    /// Skip a comment `/* ... */` without emitting a token.
    fn skip_comment(&mut self)
        requires
            old(self).wf(),
            old(self).pos + 2 <= old(self).input@.len(),
        ensures
            final(self).wf(),
            final(self).input@ == old(self).input@,
            final(self).pos == comment_end(old(self).input@, old(self).pos + 2),
            final(self).tokens@ == old(self).tokens@,
    {
        let ghost s = self.input@;
        let ghost q0 = self.pos + 2;
        self.pos += 2;
        while self.input.len() - self.pos > 1
            invariant
                q0 <= self.pos <= s.len(),
                self.input@ == s,
                s.len() <= usize::MAX,
                self.tokens@ == old(self).tokens@,
                comment_end(s, self.pos as int) == comment_end(s, q0),
            decreases s.len() - self.pos,
        {
            if self.input[self.pos] == 42u8 && self.input[self.pos + 1] == 47u8 {
                self.pos += 2;
                return ;
            }
            self.pos += 1;
        }
        self.pos = self.input.len();
    }

    /// Consume a quoted string; the token covers the content inside the quotes.
    fn consume_string(&mut self, quote: u8)
        requires
            old(self).wf(),
            old(self).pos < old(self).input@.len(),
        ensures
            final(self).wf(),
            final(self).input@ == old(self).input@,
            final(self).pos == string_scan(old(self).input@, quote, old(self).pos + 1).1,
            final(self).tokens@ == old(self).tokens@.push(
                tok(
                    CssTokenKind::String,
                    old(self).pos + 1,
                    string_scan(old(self).input@, quote, old(self).pos + 1).0,
                ),
            ),
    {
        let ghost s = self.input@;
        let ghost q0 = self.pos + 1;
        self.pos += 1;
        let start = #[verifier::truncate] (self.pos as u32);
        while self.pos < self.input.len()
            invariant
                q0 <= self.pos <= s.len(),
                self.input@ == s,
                s.len() <= usize::MAX,
                self.tokens@ == old(self).tokens@,
                start == q0 as u32,
                string_scan(s, quote, self.pos as int) == string_scan(s, quote, q0),
            decreases s.len() - self.pos,
        {
            let byte = self.input[self.pos];
            if byte == quote {
                let end = #[verifier::truncate] (self.pos as u32);
                self.pos += 1;
                self.tokens.push(CssToken { kind: CssTokenKind::String, start, end });
                return ;
            }
            if byte == 92u8 && self.pos + 1 < self.input.len() {
                self.pos += 1;
            }
            self.pos += 1;
        }
        self.tokens.push(CssToken { kind: CssTokenKind::String, start, end: #[verifier::truncate] (self.pos as u32) });
    }

    /// Consume a number, dimension or percentage token.
    fn consume_numeric(&mut self)
        requires
            old(self).wf(),
            old(self).pos < old(self).input@.len(),
        ensures
            final(self).wf(),
            final(self).input@ == old(self).input@,
            final(self).pos == numeric_token(old(self).input@, old(self).pos as int).1,
            final(self).tokens@ == old(self).tokens@.push(
                numeric_token(old(self).input@, old(self).pos as int).0,
            ),
    {
        let ghost s = self.input@;
        let ghost p = self.pos as int;
        let start = #[verifier::truncate] (self.pos as u32);
        if self.pos < self.input.len() && self.input[self.pos] == 45u8 {
            self.pos += 1;
        }
        let ghost p1 = self.pos as int;
        while self.pos < self.input.len() && 48u8 <= self.input[self.pos] && self.input[self.pos]
            <= 57u8
            invariant
                p1 <= self.pos <= s.len(),
                self.input@ == s,
                s.len() <= usize::MAX,
                self.tokens@ == old(self).tokens@,
                run_end(s, self.pos as int, ByteClass::Digit) == run_end(s, p1, ByteClass::Digit),
            decreases s.len() - self.pos,
        {
            self.pos += 1;
        }
        if self.input.len() - self.pos > 1 && self.input[self.pos] == 46u8 && 48u8
            <= self.input[self.pos + 1] && self.input[self.pos + 1] <= 57u8 {
            self.pos += 1;
            let ghost p3 = self.pos as int;
            while self.pos < self.input.len() && 48u8 <= self.input[self.pos] && self.input[self.pos]
                <= 57u8
                invariant
                    p3 <= self.pos <= s.len(),
                    self.input@ == s,
                    s.len() <= usize::MAX,
                    self.tokens@ == old(self).tokens@,
                    run_end(s, self.pos as int, ByteClass::Digit) == run_end(
                        s,
                        p3,
                        ByteClass::Digit,
                    ),
                decreases s.len() - self.pos,
            {
                self.pos += 1;
            }
        }
        assert(self.pos as int == number_end(s, p));
        if self.pos < self.input.len() && self.input[self.pos] == 37u8 {
            self.pos += 1;
            self.tokens.push(
                CssToken { kind: CssTokenKind::Percentage, start, end: #[verifier::truncate] (self.pos as u32) },
            );
        } else if self.pos < self.input.len() && is_ident_start(self.input[self.pos]) {
            let ghost q = self.pos as int;
            while self.pos < self.input.len() && is_ident_char(self.input[self.pos])
                invariant
                    q <= self.pos <= s.len(),
                    self.input@ == s,
                    s.len() <= usize::MAX,
                    self.tokens@ == old(self).tokens@,
                    run_end(s, self.pos as int, ByteClass::IdentChar) == run_end(
                        s,
                        q,
                        ByteClass::IdentChar,
                    ),
                decreases s.len() - self.pos,
            {
                self.pos += 1;
            }
            self.tokens.push(
                CssToken { kind: CssTokenKind::Dimension, start, end: #[verifier::truncate] (self.pos as u32) },
            );
        } else {
            self.tokens.push(CssToken { kind: CssTokenKind::Number, start, end: #[verifier::truncate] (self.pos as u32) });
        }
    }

    /// Consume an identifier; followed directly by `(` it is a function token.
    fn consume_ident_or_function(&mut self)
        requires
            old(self).wf(),
            old(self).pos < old(self).input@.len(),
        ensures
            final(self).wf(),
            final(self).input@ == old(self).input@,
            final(self).pos == ident_token(old(self).input@, old(self).pos as int).1,
            final(self).tokens@ == old(self).tokens@.push(
                ident_token(old(self).input@, old(self).pos as int).0,
            ),
    {
        let ghost s = self.input@;
        let start = #[verifier::truncate] (self.pos as u32);
        if self.pos < self.input.len() && self.input[self.pos] == 45u8 {
            self.pos += 1;
        }
        let ghost p1 = self.pos as int;
        while self.pos < self.input.len() && is_ident_char(self.input[self.pos])
            invariant
                p1 <= self.pos <= s.len(),
                self.input@ == s,
                s.len() <= usize::MAX,
                self.tokens@ == old(self).tokens@,
                run_end(s, self.pos as int, ByteClass::IdentChar) == run_end(
                    s,
                    p1,
                    ByteClass::IdentChar,
                ),
            decreases s.len() - self.pos,
        {
            self.pos += 1;
        }
        if self.pos < self.input.len() && self.input[self.pos] == 40u8 {
            self.tokens.push(CssToken { kind: CssTokenKind::Function, start, end: #[verifier::truncate] (self.pos as u32) });
        } else {
            self.tokens.push(CssToken { kind: CssTokenKind::Ident, start, end: #[verifier::truncate] (self.pos as u32) });
        }
    }

    /// Emit a one-byte token and advance past it.
    fn emit_single(&mut self, kind: CssTokenKind)
        requires
            old(self).wf(),
            old(self).pos < old(self).input@.len(),
        ensures
            final(self).wf(),
            final(self).input@ == old(self).input@,
            final(self).pos == old(self).pos + 1,
            final(self).tokens@ == old(self).tokens@.push(
                tok(kind, old(self).pos as int, old(self).pos + 1),
            ),
    {
        self.tokens.push(
            CssToken { kind, start: #[verifier::truncate] (self.pos as u32), end: #[verifier::truncate] ((self.pos + 1) as u32) },
        );
        self.pos += 1;
    }

    /// The byte `offset` places after the current position, if any.
    fn peek_at(&self, offset: usize) -> (res: Option<u8>)
        requires
            self.pos + offset <= usize::MAX,
        ensures
            res == (if self.pos + offset < self.input@.len() {
                Some(self.input@[self.pos + offset])
            } else {
                None::<u8>
            }),
    {
        let idx = self.pos + offset;
        if idx < self.input.len() {
            Some(self.input[idx])
        } else {
            None
        }
    }
}

// ─── Character classification ────────────────────────────────────

/// Can this byte start a CSS identifier? (letter or `_`)
fn is_ident_start(byte: u8) -> (res: bool)
    ensures
        res == spec_is_ident_start(byte),
{
    (65u8 <= byte && byte <= 90u8) || (97u8 <= byte && byte <= 122u8) || byte == 95u8
}

/// Can this byte continue a CSS identifier? (letter, digit, `_` or `-`)
fn is_ident_char(byte: u8) -> (res: bool)
    ensures
        res == spec_is_ident_char(byte),
{
    is_ident_start(byte) || (48u8 <= byte && byte <= 57u8) || byte == 45u8
}

fn is_ascii_space(byte: u8) -> (res: bool)
    ensures
        res == spec_is_space(byte),
{
    byte == 32u8 || byte == 9u8 || byte == 10u8 || byte == 12u8 || byte == 13u8
}

} // verus!
