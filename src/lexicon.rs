use vstd::prelude::*;
use vstd::utf8::{decode_utf8, valid_utf8};

use crate::errors::Error;
use crate::keywords::keyword_kind;
use crate::tokens::{LiteralView, TokenType, TokenView};

verus! {

// The scanner's behaviour as a function on byte sequences: `step` consumes
// one token's worth of input, `scan_source` runs it over a whole buffer.

pub open spec fn is_digit_byte(c: u8) -> bool {
    '0' as u8 <= c && c <= '9' as u8
}

pub open spec fn is_alpha_byte(c: u8) -> bool {
    ('a' as u8 <= c && c <= 'z' as u8) || ('A' as u8 <= c && c <= 'Z' as u8) || c == '_' as u8
}

pub open spec fn is_alphanumeric_byte(c: u8) -> bool {
    is_alpha_byte(c) || is_digit_byte(c)
}

/// The end of the maximal run of decimal digits that starts at `i`.
pub open spec fn digits_end(src: Seq<u8>, i: int) -> int
    decreases src.len() - i,
{
    if 0 <= i < src.len() && is_digit_byte(src[i]) {
        digits_end(src, i + 1)
    } else {
        i
    }
}

/// The end of a numeral that starts at `i`: digits, then a `.` and more digits
/// only when a digit follows the `.`.
pub open spec fn number_end(src: Seq<u8>, i: int) -> int {
    let e = digits_end(src, i);
    if 0 <= e && e + 1 < src.len() && src[e] == '.' as u8 && is_digit_byte(src[e + 1]) {
        digits_end(src, e + 1)
    } else {
        e
    }
}

/// The end of the maximal run of letters, digits and underscores from `i`.
pub open spec fn word_end(src: Seq<u8>, i: int) -> int
    decreases src.len() - i,
{
    if 0 <= i < src.len() && is_alphanumeric_byte(src[i]) {
        word_end(src, i + 1)
    } else {
        i
    }
}

/// The position of the first newline at or after `i`, or the end of input.
pub open spec fn comment_end(src: Seq<u8>, i: int) -> int
    decreases src.len() - i,
{
    if 0 <= i < src.len() && src[i] != '\n' as u8 {
        comment_end(src, i + 1)
    } else {
        i
    }
}

/// Scans a string body from `i` on line `line`: the position of the closing
/// quote (the end of input when there is none), and the line reached there.
pub open spec fn string_end(src: Seq<u8>, i: int, line: int) -> (int, int)
    decreases src.len() - i,
{
    if 0 <= i < src.len() && src[i] != '"' as u8 {
        string_end(src, i + 1, if src[i] == '\n' as u8 { line + 1 } else { line })
    } else {
        (i, line)
    }
}

/// Kinds of the tokens that are one byte long whatever follows.
pub open spec fn single_kind(c: u8) -> Option<TokenType> {
    if c == '(' as u8 {
        Some(TokenType::LeftParen)
    } else if c == ')' as u8 {
        Some(TokenType::RightParen)
    } else if c == '{' as u8 {
        Some(TokenType::LeftBrace)
    } else if c == '}' as u8 {
        Some(TokenType::RightBrace)
    } else if c == ',' as u8 {
        Some(TokenType::Comma)
    } else if c == '.' as u8 {
        Some(TokenType::Dot)
    } else if c == '-' as u8 {
        Some(TokenType::Minus)
    } else if c == '+' as u8 {
        Some(TokenType::Plus)
    } else if c == ';' as u8 {
        Some(TokenType::Semicolon)
    } else if c == '*' as u8 {
        Some(TokenType::Star)
    } else {
        None
    }
}

/// For an operator byte that may take a following `=`: the kind without it
/// and the kind with it.
pub open spec fn compound_kinds(c: u8) -> Option<(TokenType, TokenType)> {
    if c == '!' as u8 {
        Some((TokenType::Bang, TokenType::BangEqual))
    } else if c == '=' as u8 {
        Some((TokenType::Equal, TokenType::EqualEqual))
    } else if c == '<' as u8 {
        Some((TokenType::Less, TokenType::LessEqual))
    } else if c == '>' as u8 {
        Some((TokenType::Greater, TokenType::GreaterEqual))
    } else {
        None
    }
}

pub open spec fn is_blank(c: u8) -> bool {
    c == ' ' as u8 || c == '\r' as u8 || c == '\t' as u8
}

/// The outcome of scanning one token's worth of input.
pub struct Step {
    /// Where the next token starts.
    pub end: int,
    /// The line reached at `end`.
    pub line: int,
    /// The token emitted, if any.
    pub token: Option<TokenView>,
    /// The error reported, if any.
    pub error: Option<Error>,
}

/// A token without a decoded value, spanning `src[start..end]`.
pub open spec fn plain_token(src: Seq<u8>, start: int, end: int, line: int, kind: TokenType) -> TokenView {
    TokenView { kind, lexeme: src.subrange(start, end), line, literal: None }
}

/// A step that emits a plain token and stays on the line.
pub open spec fn emit(src: Seq<u8>, start: int, end: int, line: int, kind: TokenType) -> Step {
    Step { end, line, token: Some(plain_token(src, start, end, line, kind)), error: None }
}

/// A step that consumes up to `end` and emits nothing.
pub open spec fn skip(end: int, line: int) -> Step {
    Step { end, line, token: None, error: None }
}

/// The kind of a word: its reserved kind, or a generic identifier.
pub open spec fn word_kind(w: Seq<u8>) -> TokenType {
    match keyword_kind(w) {
        Some(k) => k,
        None => TokenType::Identifier,
    }
}

/// A string literal whose opening quote is at `start`.
pub open spec fn string_step(src: Seq<u8>, start: int, line: int) -> Step {
    let (close, reached) = string_end(src, start + 1, line);
    if close >= src.len() {
        Step {
            end: close,
            line: reached,
            token: None,
            error: Some(Error::UnterminatedString { line: line as u64 }),
        }
    } else {
        let body = src.subrange(start + 1, close);
        if valid_utf8(body) {
            Step {
                end: close + 1,
                line: reached,
                token: Some(
                    TokenView {
                        kind: TokenType::String,
                        lexeme: src.subrange(start, close + 1),
                        line,
                        literal: Some(LiteralView::Str(decode_utf8(body))),
                    },
                ),
                error: None,
            }
        } else {
            Step {
                end: close + 1,
                line: reached,
                token: None,
                error: Some(Error::InvalidEncoding { line: line as u64 }),
            }
        }
    }
}

/// Scans the token that starts at `start` (which is before the end of
/// input), on line `line`.
pub open spec fn step(src: Seq<u8>, start: int, line: int) -> Step {
    let c = src[start];
    let next = start + 1;
    if single_kind(c) is Some {
        emit(src, start, next, line, single_kind(c)->0)
    } else if compound_kinds(c) is Some {
        let (bare, with_eq) = compound_kinds(c)->0;
        if next < src.len() && src[next] == '=' as u8 {
            emit(src, start, next + 1, line, with_eq)
        } else {
            emit(src, start, next, line, bare)
        }
    } else if c == '/' as u8 {
        if next < src.len() && src[next] == '/' as u8 {
            skip(comment_end(src, next + 1), line)
        } else {
            emit(src, start, next, line, TokenType::Slash)
        }
    } else if is_blank(c) {
        skip(next, line)
    } else if c == '\n' as u8 {
        skip(next, line + 1)
    } else if c == '"' as u8 {
        string_step(src, start, line)
    } else if is_digit_byte(c) {
        let e = number_end(src, start);
        Step {
            end: e,
            line,
            token: Some(
                TokenView {
                    kind: TokenType::Number,
                    lexeme: src.subrange(start, e),
                    line,
                    literal: Some(LiteralView::Number(src.subrange(start, e))),
                },
            ),
            error: None,
        }
    } else if is_alpha_byte(c) {
        let e = word_end(src, start);
        emit(src, start, e, line, word_kind(src.subrange(start, e)))
    } else {
        Step {
            end: next,
            line,
            token: None,
            error: Some(Error::UnrecognizedCharacter { character: c, line: line as u64 }),
        }
    }
}

/// The empty sequence, or the one value an option holds.
pub open spec fn option_seq<T>(o: Option<T>) -> Seq<T> {
    match o {
        Some(x) => seq![x],
        None => seq![],
    }
}

/// The end-of-input marker on line `line`.
pub open spec fn end_marker(line: int) -> TokenView {
    TokenView { kind: TokenType::EOF, lexeme: seq![], line, literal: None }
}

/// Scans `src` from `pos` on line `line`, after `toks` and `errs` were
/// produced: all tokens, ending in the end-of-input marker, and all errors.
pub open spec fn scan_from(
    src: Seq<u8>,
    pos: int,
    line: int,
    toks: Seq<TokenView>,
    errs: Seq<Error>,
) -> (Seq<TokenView>, Seq<Error>)
    decreases src.len() - pos,
    via scan_from_decreases
{
    if 0 <= pos < src.len() {
        let s = step(src, pos, line);
        scan_from(src, s.end, s.line, toks + option_seq(s.token), errs + option_seq(s.error))
    } else {
        (toks.push(end_marker(line)), errs)
    }
}

#[via_fn]
proof fn scan_from_decreases(
    src: Seq<u8>,
    pos: int,
    line: int,
    toks: Seq<TokenView>,
    errs: Seq<Error>,
) {
    if 0 <= pos < src.len() {
        lemma_step_advances(src, pos, line);
    }
}

/// The tokens and errors of a whole scan of `src`, starting on line 1.
pub open spec fn scan_source(src: Seq<u8>) -> (Seq<TokenView>, Seq<Error>) {
    scan_from(src, 0, 1, seq![], seq![])
}

pub open spec fn scan_tokens(src: Seq<u8>) -> Seq<TokenView> {
    scan_source(src).0
}

pub open spec fn scan_errors(src: Seq<u8>) -> Seq<Error> {
    scan_source(src).1
}

pub proof fn lemma_digits_end(src: Seq<u8>, i: int)
    requires
        0 <= i <= src.len(),
    ensures
        i <= digits_end(src, i) <= src.len(),
    decreases src.len() - i,
{
    if i < src.len() && is_digit_byte(src[i]) {
        lemma_digits_end(src, i + 1);
    }
}

pub proof fn lemma_word_end(src: Seq<u8>, i: int)
    requires
        0 <= i <= src.len(),
    ensures
        i <= word_end(src, i) <= src.len(),
    decreases src.len() - i,
{
    if i < src.len() && is_alphanumeric_byte(src[i]) {
        lemma_word_end(src, i + 1);
    }
}

pub proof fn lemma_comment_end(src: Seq<u8>, i: int)
    requires
        0 <= i <= src.len(),
    ensures
        i <= comment_end(src, i) <= src.len(),
    decreases src.len() - i,
{
    if i < src.len() && src[i] != '\n' as u8 {
        lemma_comment_end(src, i + 1);
    }
}

pub proof fn lemma_string_end(src: Seq<u8>, i: int, line: int)
    requires
        0 <= i <= src.len(),
    ensures
        i <= string_end(src, i, line).0 <= src.len(),
        line <= string_end(src, i, line).1 <= line + (string_end(src, i, line).0 - i),
    decreases src.len() - i,
{
    if i < src.len() && src[i] != '"' as u8 {
        lemma_string_end(src, i + 1, if src[i] == '\n' as u8 { line + 1 } else { line });
    }
}

/// A step consumes at least one byte, stays within the input, and moves down
/// at most one line per byte consumed; its token, if any, starts on `line`
/// and is no end-of-input marker.
pub proof fn lemma_step_advances(src: Seq<u8>, start: int, line: int)
    requires
        0 <= start < src.len(),
    ensures
        start < step(src, start, line).end <= src.len(),
        line <= step(src, start, line).line <= line + (step(src, start, line).end - start),
        step(src, start, line).token matches Some(t) ==> t.line == line && t.kind != TokenType::EOF,
{
    let c = src[start];
    if c == '/' as u8 && start + 1 < src.len() && src[start + 1] == '/' as u8 {
        lemma_comment_end(src, start + 2);
    }
    if c == '"' as u8 {
        lemma_string_end(src, start + 1, line);
    }
    if is_digit_byte(c) {
        lemma_digits_end(src, start + 1);
        let e = digits_end(src, start);
        if 0 <= e && e + 1 < src.len() && src[e] == '.' as u8 && is_digit_byte(src[e + 1]) {
            lemma_digits_end(src, e + 1);
        }
    }
    if is_alpha_byte(c) {
        lemma_word_end(src, start + 1);
    }
    let kw = word_kind(src.subrange(start, word_end(src, start)));
    assert(kw != TokenType::EOF);
}

} // verus!
