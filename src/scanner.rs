use vstd::prelude::*;
use vstd::utf8::{decode_utf8, encode_utf8, valid_utf8};

use crate::errors::Error;
use crate::keywords::keyword;
use crate::lexicon::{
    comment_end, digits_end, end_marker, is_alpha_byte, is_alphanumeric_byte, is_digit_byte,
    lemma_comment_end, lemma_digits_end, lemma_step_advances, lemma_string_end, option_seq,
    plain_token, scan_errors, scan_from, scan_source, scan_tokens, step, string_end, word_end,
};
use crate::theorems::{lemma_lines_nondecreasing, lemma_single_end_marker};
use crate::tokens::{Literal, Token, TokenType, TokenView};

verus! {

/// Relies on `String::from_utf8`: it succeeds exactly when the bytes are valid
/// UTF-8, and the string then holds the characters they encode.
#[verifier::external_body]
pub(crate) fn decode_text(bytes: Vec<u8>) -> (r: Option<String>)
    ensures
        r is Some <==> valid_utf8(bytes@),
        r matches Some(s) ==> s@ == decode_utf8(bytes@),
{
    String::from_utf8(bytes).ok()
}

/// Scans one source buffer into tokens, recording lexical errors as it goes.
pub struct Scanner {
    /// The tokens produced so far.
    pub tokens: Vec<Token>,
    /// Whether any lexical error was found.
    pub error: bool,
    /// The lexical errors found, in order.
    pub errors: Vec<Error>,
    source: Vec<u8>,
    start: usize,
    current: usize,
    line: u64,
}

impl Scanner {
    /// The buffer being scanned.
    pub closed spec fn source_view(&self) -> Seq<u8> {
        self.source@
    }

    /// The tokens produced so far, as values.
    pub closed spec fn tokens_view(&self) -> Seq<TokenView> {
        self.tokens@.map_values(|t: Token| t@)
    }

    /// The lexical errors recorded so far.
    pub closed spec fn errors_view(&self) -> Seq<Error> {
        self.errors@
    }

    /// Whether the pass has been flagged as errored.
    pub closed spec fn error_flag(&self) -> bool {
        self.error
    }

    /// Nothing scanned yet.
    pub closed spec fn is_fresh(&self) -> bool {
        &&& self.start == 0
        &&& self.current == 0
        &&& self.line == 1
        &&& self.tokens@.len() == 0
        &&& self.errors@.len() == 0
        &&& !self.error
    }

    spec fn wf(&self) -> bool {
        &&& self.start <= self.current <= self.source@.len()
        &&& self.source@.len() < u64::MAX
        &&& self.source@.len() <= usize::MAX
        &&& 1 <= self.line
        &&& self.line as int <= self.current as int + 1
    }

    /// `self` is `before` after the step of the token that starts at
    /// `before.start`, and `r` reports that step's error.
    spec fn stepped(&self, before: Scanner, r: Result<(), Error>) -> bool {
        let s = step(before.source@, before.start as int, before.line as int);
        &&& self.wf()
        &&& self.source@ == before.source@
        &&& self.start == before.start
        &&& self.current as int == s.end
        &&& self.line as int == s.line
        &&& self.tokens_view() == before.tokens_view() + option_seq(s.token)
        &&& self.errors@ == before.errors@
        &&& self.error == before.error
        &&& r == match s.error {
            Some(e) => Err(e),
            None => Ok(()),
        }
    }

    /// A scanner positioned at the start of the UTF-8 bytes of `source`.
    pub fn new(source: String) -> (r: Scanner)
        ensures
            r.is_fresh(),
            r.source_view() == encode_utf8(source@),
            r.tokens_view() == Seq::<TokenView>::empty(),
            r.errors_view() == Seq::<Error>::empty(),
            !r.error_flag(),
    {
        Scanner {
            tokens: Vec::new(),
            error: false,
            errors: Vec::new(),
            source: source.as_str().as_bytes_vec(),
            start: 0,
            current: 0,
            line: 1,
        }
    }

    /// The tokens produced so far.
    pub fn tokens(&self) -> (r: &Vec<Token>)
        ensures
            r@.map_values(|t: Token| t@) == self.tokens_view(),
    {
        &self.tokens
    }

    /// The lexical errors recorded so far.
    pub fn errors(&self) -> (r: &Vec<Error>)
        ensures
            r@ == self.errors_view(),
    {
        &self.errors
    }

    /// Whether the pass has been flagged as errored.
    pub fn has_error(&self) -> (r: bool)
        ensures
            r == self.error_flag(),
    {
        self.error
    }

    /// Whether the whole buffer has been consumed.
    fn done(&self) -> (r: bool)
        ensures
            r == (self.current >= self.source@.len()),
    {
        self.current >= self.source.len()
    }

    /// Scans the whole buffer: every token, then the end-of-input marker.
    pub fn scan(&mut self)
        requires
            old(self).is_fresh(),
            old(self).source_view().len() < u64::MAX,
        ensures
            final(self).source_view() == old(self).source_view(),
            final(self).tokens_view() == scan_tokens(old(self).source_view()),
            final(self).errors_view() == scan_errors(old(self).source_view()),
            final(self).error_flag() == (final(self).errors_view().len() > 0),
            final(self).tokens_view().len() >= 1,
            final(self).tokens_view().last().kind == TokenType::EOF,
            forall|i: int|
                0 <= i < final(self).tokens_view().len() - 1
                    ==> #[trigger] final(self).tokens_view()[i].kind != TokenType::EOF,
            forall|i: int, j: int|
                0 <= i <= j < final(self).tokens_view().len()
                    ==> #[trigger] final(self).tokens_view()[i].line
                    <= #[trigger] final(self).tokens_view()[j].line,
    {
        let ghost src = self.source@;
        let _ = self.source.len();
        assert(self.tokens_view() =~= seq![]);
        while !self.done()
            invariant
                self.wf(),
                self.source@ == src,
                scan_from(src, self.current as int, self.line as int, self.tokens_view(), self.errors@)
                    == scan_source(src),
                self.error == (self.errors@.len() > 0),
            decreases src.len() - self.current,
        {
            self.start = self.current;
            let ghost before = *self;
            proof {
                lemma_step_advances(src, self.current as int, self.line as int);
            }
            let r = self.scan_token();
            if let Err(e) = r {
                self.errors.push(e);
                self.error = true;
            }
            assert(self.errors@ =~= before.errors@ + option_seq(
                step(src, before.current as int, before.line as int).error,
            ));
        }
        let eof = Token { token_type: TokenType::EOF, lexeme: Vec::new(), line: self.line, literal: None };
        let ghost before = self.tokens_view();
        self.tokens.push(eof);
        assert(self.tokens_view() =~= before.push(end_marker(self.line as int)));
        proof {
            lemma_single_end_marker(src);
            lemma_lines_nondecreasing(src);
        }
    }

    /// Consumes the next byte and returns it.
    fn advance(&mut self) -> (c: u8)
        requires
            old(self).wf(),
            old(self).current < old(self).source@.len(),
        ensures
            c == old(self).source@[old(self).current as int],
            final(self).current == old(self).current + 1,
            final(self).wf(),
            final(self).line == old(self).line,
            final(self).start == old(self).start,
            final(self).source == old(self).source,
            final(self).tokens == old(self).tokens,
            final(self).errors == old(self).errors,
            final(self).error == old(self).error,
    {
        self.current += 1;
        self.source[self.current - 1]
    }

    /// Consumes the next byte only when it is `expected`.
    fn match_char(&mut self, expected: u8) -> (r: bool)
        requires
            old(self).wf(),
        ensures
            r == (old(self).current < old(self).source@.len()
                && old(self).source@[old(self).current as int] == expected),
            final(self).current == if r { old(self).current + 1 } else { old(self).current as int },
            final(self).wf(),
            final(self).line == old(self).line,
            final(self).start == old(self).start,
            final(self).source == old(self).source,
            final(self).tokens == old(self).tokens,
            final(self).errors == old(self).errors,
            final(self).error == old(self).error,
    {
        if self.done() {
            return false;
        }
        if self.source[self.current] != expected {
            return false;
        }
        self.current += 1;
        true
    }

    /// The byte at `current + ahead`, or 0 past the end of input.
    fn peek_at(&self, ahead: usize) -> (c: u8)
        requires
            self.wf(),
            ahead <= 1,
        ensures
            c == if self.current + ahead < self.source@.len() {
                self.source@[self.current + ahead]
            } else {
                0u8
            },
    {
        if self.source.len() - self.current <= ahead {
            return 0;
        }
        self.source[self.current + ahead]
    }

    /// The next byte, or 0 at the end of input.
    fn peek(&self) -> (c: u8)
        requires
            self.wf(),
        ensures
            c == if self.current < self.source@.len() {
                self.source@[self.current as int]
            } else {
                0u8
            },
    {
        self.peek_at(0)
    }

    /// The bytes `source[from..to]`.
    fn span(&self, from: usize, to: usize) -> (r: Vec<u8>)
        requires
            from <= to <= self.source@.len(),
        ensures
            r@ == self.source@.subrange(from as int, to as int),
    {
        let mut r: Vec<u8> = Vec::new();
        let mut i: usize = from;
        while i < to
            invariant
                from <= i <= to <= self.source@.len(),
                r@ == self.source@.subrange(from as int, i as int),
            decreases to - i,
        {
            r.push(self.source[i]);
            assert(r@ =~= self.source@.subrange(from as int, i + 1));
            i += 1;
        }
        r
    }

    /// Appends a token of kind `token_type` spanning `source[start..current]`.
    fn add_token_value(&mut self, token_type: TokenType, line: u64, literal: Option<Literal>)
        requires
            old(self).wf(),
        ensures
            final(self).tokens_view() == old(self).tokens_view() + seq![
                TokenView {
                    kind: token_type,
                    lexeme: old(self).source@.subrange(old(self).start as int, old(self).current as int),
                    line: line as int,
                    literal: match literal {
                        Some(l) => Some(l@),
                        None => None,
                    },
                },
            ],
            final(self).current == old(self).current,
            final(self).line == old(self).line,
            final(self).start == old(self).start,
            final(self).source == old(self).source,
            final(self).errors == old(self).errors,
            final(self).error == old(self).error,
    {
        let lexeme = self.span(self.start, self.current);
        let ghost before = self.tokens_view();
        let t = Token { token_type, lexeme, line, literal };
        self.tokens.push(t);
        assert(self.tokens_view() =~= before + seq![t@]);
    }

    /// Appends a token of kind `token_type`, without a decoded value, on the
    /// current line.
    fn add_token(&mut self, token_type: TokenType)
        requires
            old(self).wf(),
        ensures
            final(self).tokens_view() == old(self).tokens_view() + seq![
                plain_token(
                    old(self).source@,
                    old(self).start as int,
                    old(self).current as int,
                    old(self).line as int,
                    token_type,
                ),
            ],
            final(self).current == old(self).current,
            final(self).line == old(self).line,
            final(self).start == old(self).start,
            final(self).source == old(self).source,
            final(self).errors == old(self).errors,
            final(self).error == old(self).error,
    {
        let line = self.line;
        self.add_token_value(token_type, line, None);
    }
    fn is_digit(c: u8) -> (r: bool)
        ensures
            r == is_digit_byte(c),
    {
        c >= '0' as u8 && c <= '9' as u8
    }

    fn is_alpha(c: u8) -> (r: bool)
        ensures
            r == is_alpha_byte(c),
    {
        c >= 'a' as u8 && c <= 'z' as u8 || c >= 'A' as u8 && c <= 'Z' as u8 || c == '_' as u8
    }

    fn is_alphanumeric(c: u8) -> (r: bool)
        ensures
            r == is_alphanumeric_byte(c),
    {
        Self::is_alpha(c) || Self::is_digit(c)
    }

    /// Scans a string literal whose opening quote has just been consumed.
    fn string(&mut self) -> (r: Result<(), Error>)
        requires
            old(self).wf(),
            old(self).current == old(self).start + 1,
            old(self).source@[old(self).start as int] == '"' as u8,
        ensures
            final(self).stepped(*old(self), r),
    {
        let ghost src = self.source@;
        let start_line = self.line;
        proof {
            lemma_string_end(src, self.current as int, self.line as int);
        }
        while self.peek() != '"' as u8 && !self.done()
            invariant
                self.wf(),
                self.source@ == src,
                self.start == old(self).start,
                self.tokens == old(self).tokens,
                self.errors == old(self).errors,
                self.error == old(self).error,
                self.start + 1 <= self.current,
                string_end(src, self.current as int, self.line as int)
                    == string_end(src, self.start + 1, start_line as int),
            decreases src.len() - self.current,
        {
            if self.peek() == '\n' as u8 {
                self.line += 1;
            }
            self.current += 1;
        }
        proof {
            lemma_step_advances(src, self.start as int, start_line as int);
            assert(string_end(src, self.current as int, self.line as int) == (
                self.current as int,
                self.line as int,
            ));
        }
        if self.done() {
            return Err(Error::UnterminatedString { line: start_line });
        }
        self.current += 1;
        let body = self.span(self.start + 1, self.current - 1);
        match decode_text(body) {
            Some(text) => {
                self.add_token_value(TokenType::String, start_line, Some(Literal::String(text)));
                Ok(())
            },
            None => Err(Error::InvalidEncoding { line: start_line }),
        }
    }

    /// Consumes a run of digits.
    fn digits(&mut self)
        requires
            old(self).wf(),
        ensures
            final(self).current as int == digits_end(old(self).source@, old(self).current as int),
            final(self).wf(),
            final(self).line == old(self).line,
            final(self).start == old(self).start,
            final(self).source == old(self).source,
            final(self).tokens == old(self).tokens,
            final(self).errors == old(self).errors,
            final(self).error == old(self).error,
    {
        let ghost src = self.source@;
        while Self::is_digit(self.peek())
            invariant
                self.wf(),
                self.source@ == src,
                self.line == old(self).line,
                self.start == old(self).start,
                self.source == old(self).source,
                self.tokens == old(self).tokens,
                self.errors == old(self).errors,
                self.error == old(self).error,
                old(self).current <= self.current,
                digits_end(src, self.current as int) == digits_end(src, old(self).current as int),
            decreases src.len() - self.current,
        {
            self.current += 1;
        }
    }

    /// Scans a numeral whose first digit has just been consumed.
    fn number(&mut self) -> (r: Result<(), Error>)
        requires
            old(self).wf(),
            old(self).current == old(self).start + 1,
            is_digit_byte(old(self).source@[old(self).start as int]),
        ensures
            final(self).stepped(*old(self), r),
    {
        let ghost src = self.source@;
        self.digits();
        if self.peek() == '.' as u8 && Self::is_digit(self.peek_at(1)) {
            self.current += 1;
            self.digits();
        }
        proof {
            lemma_digits_end(src, self.start + 1);
        }
        let numeral = self.span(self.start, self.current);
        self.add_token_value(TokenType::Number, self.line, Some(Literal::Number(numeral)));
        Ok(())
    }

    /// Scans an identifier or a reserved word whose first byte has just been
    /// consumed.
    fn identifier(&mut self) -> (r: Result<(), Error>)
        requires
            old(self).wf(),
            old(self).current == old(self).start + 1,
            is_alpha_byte(old(self).source@[old(self).start as int]),
        ensures
            final(self).stepped(*old(self), r),
    {
        let ghost src = self.source@;
        while Self::is_alphanumeric(self.peek())
            invariant
                self.wf(),
                self.source@ == src,
                self.line == old(self).line,
                self.start == old(self).start,
                self.tokens == old(self).tokens,
                self.errors == old(self).errors,
                self.error == old(self).error,
                self.start + 1 <= self.current,
                word_end(src, self.current as int) == word_end(src, self.start + 1),
            decreases src.len() - self.current,
        {
            self.current += 1;
        }
        let word = self.span(self.start, self.current);
        let token_type = match keyword(word.as_slice()) {
            Some(k) => k,
            None => TokenType::Identifier,
        };
        self.add_token(token_type);
        Ok(())
    }

    /// Scans the token that starts at `current`, which is before the end of
    /// input: emits it, skips it, or reports its error.
    fn scan_token(&mut self) -> (r: Result<(), Error>)
        requires
            old(self).wf(),
            old(self).start == old(self).current,
            old(self).current < old(self).source@.len(),
        ensures
            final(self).stepped(*old(self), r),
    {
        let ghost src = self.source@;
        let c = self.advance();
        if c == '(' as u8 {
            self.add_token(TokenType::LeftParen);
        } else if c == ')' as u8 {
            self.add_token(TokenType::RightParen);
        } else if c == '{' as u8 {
            self.add_token(TokenType::LeftBrace);
        } else if c == '}' as u8 {
            self.add_token(TokenType::RightBrace);
        } else if c == ',' as u8 {
            self.add_token(TokenType::Comma);
        } else if c == '.' as u8 {
            self.add_token(TokenType::Dot);
        } else if c == '-' as u8 {
            self.add_token(TokenType::Minus);
        } else if c == '+' as u8 {
            self.add_token(TokenType::Plus);
        } else if c == ';' as u8 {
            self.add_token(TokenType::Semicolon);
        } else if c == '*' as u8 {
            self.add_token(TokenType::Star);
        } else if c == '!' as u8 {
            let t = if self.match_char('=' as u8) { TokenType::BangEqual } else { TokenType::Bang };
            self.add_token(t);
        } else if c == '=' as u8 {
            let t = if self.match_char('=' as u8) { TokenType::EqualEqual } else { TokenType::Equal };
            self.add_token(t);
        } else if c == '<' as u8 {
            let t = if self.match_char('=' as u8) { TokenType::LessEqual } else { TokenType::Less };
            self.add_token(t);
        } else if c == '>' as u8 {
            let t = if self.match_char('=' as u8) {
                TokenType::GreaterEqual
            } else {
                TokenType::Greater
            };
            self.add_token(t);
        } else if c == '/' as u8 {
            if self.match_char('/' as u8) {
                proof {
                    lemma_comment_end(src, self.current as int);
                }
                while self.peek() != '\n' as u8 && !self.done()
                    invariant
                        self.wf(),
                        self.source@ == src,
                        self.line == old(self).line,
                        self.start == old(self).start,
                        self.tokens == old(self).tokens,
                        self.errors == old(self).errors,
                        self.error == old(self).error,
                        self.start + 2 <= self.current,
                        comment_end(src, self.current as int) == comment_end(src, self.start + 2),
                    decreases src.len() - self.current,
                {
                    self.current += 1;
                }
            } else {
                self.add_token(TokenType::Slash);
            }
        } else if c == ' ' as u8 || c == '\r' as u8 || c == '\t' as u8 {
        } else if c == '\n' as u8 {
            self.line += 1;
        } else if c == '"' as u8 {
            return self.string();
        } else if Self::is_digit(c) {
            return self.number();
        } else if Self::is_alpha(c) {
            return self.identifier();
        } else {
            return Err(Error::UnrecognizedCharacter { character: c, line: self.line });
        }
        Ok(())
    }
}

} // verus!
