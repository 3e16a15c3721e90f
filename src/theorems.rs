use vstd::prelude::*;

use crate::errors::Error;
use crate::keywords::keyword_kind;
use crate::lexicon::{
    compound_kinds, end_marker, is_alpha_byte, is_alphanumeric_byte, lemma_step_advances,
    plain_token, scan_errors, scan_from, scan_tokens, step, word_end, word_kind,
};
use crate::scanner::Scanner;
use crate::tokens::{TokenType, TokenView};

verus! {

/// No token before the last is an end-of-input marker.
pub open spec fn no_marker(toks: Seq<TokenView>) -> bool {
    forall|i: int| 0 <= i < toks.len() ==> #[trigger] toks[i].kind != TokenType::EOF
}

/// Lines never decrease along `toks`.
pub open spec fn lines_sorted(toks: Seq<TokenView>) -> bool {
    forall|i: int, j: int| 0 <= i <= j < toks.len() ==> #[trigger] toks[i].line <= #[trigger] toks[j].line
}

proof fn lemma_scan_from_shape(
    src: Seq<u8>,
    pos: int,
    line: int,
    toks: Seq<TokenView>,
    errs: Seq<Error>,
)
    requires
        0 <= pos <= src.len(),
        no_marker(toks),
        lines_sorted(toks),
        forall|i: int| 0 <= i < toks.len() ==> #[trigger] toks[i].line <= line,
    ensures
        ({
            let out = scan_from(src, pos, line, toks, errs).0;
            &&& out.len() >= 1
            &&& out.last().kind == TokenType::EOF
            &&& no_marker(out.drop_last())
            &&& lines_sorted(out)
        }),
    decreases src.len() - pos,
{
    if pos < src.len() {
        let s = step(src, pos, line);
        lemma_step_advances(src, pos, line);
        let next = toks + match s.token {
            Some(t) => seq![t],
            None => seq![],
        };
        assert(next.len() >= toks.len());
        assert forall|i: int| 0 <= i < next.len() implies #[trigger] next[i].line <= s.line by {
            if i >= toks.len() {
                assert(next[i] == s.token->0);
            }
        }
        assert(no_marker(next)) by {
            assert forall|i: int| 0 <= i < next.len() implies #[trigger] next[i].kind
                != TokenType::EOF by {
                if i >= toks.len() {
                    assert(next[i] == s.token->0);
                }
            }
        }
        assert(lines_sorted(next)) by {
            assert forall|i: int, j: int| 0 <= i <= j < next.len() implies #[trigger] next[i].line
                <= #[trigger] next[j].line by {
                if j >= toks.len() {
                    assert(next[j] == s.token->0);
                    if i >= toks.len() {
                        assert(next[i] == s.token->0);
                    }
                }
            }
        }
        lemma_scan_from_shape(src, s.end, s.line, next, errs + match s.error {
            Some(e) => seq![e],
            None => seq![],
        });
    } else {
        let out = toks.push(end_marker(line));
        assert(out.drop_last() =~= toks);
        assert(lines_sorted(out)) by {
            assert forall|i: int, j: int| 0 <= i <= j < out.len() implies #[trigger] out[i].line
                <= #[trigger] out[j].line by {
                if j == toks.len() && i < toks.len() {
                    assert(out[i] == toks[i]);
                }
            }
        }
    }
}

/// Every scan ends in exactly one end-of-input marker: the last token is one,
/// and no other token is.
pub proof fn lemma_single_end_marker(src: Seq<u8>)
    ensures
        scan_tokens(src).len() >= 1,
        scan_tokens(src).last().kind == TokenType::EOF,
        forall|i: int| 0 <= i < scan_tokens(src).len() - 1 ==> #[trigger] scan_tokens(src)[i].kind
            != TokenType::EOF,
{
    lemma_scan_from_shape(src, 0, 1, seq![], seq![]);
    let out = scan_tokens(src);
    assert forall|i: int| 0 <= i < out.len() - 1 implies #[trigger] out[i].kind != TokenType::EOF by {
        assert(out.drop_last()[i] == out[i]);
    }
}

/// The lines of the tokens of a scan never decrease.
pub proof fn lemma_lines_nondecreasing(src: Seq<u8>)
    ensures
        forall|i: int, j: int|
            0 <= i <= j < scan_tokens(src).len() ==> #[trigger] scan_tokens(src)[i].line
                <= #[trigger] scan_tokens(src)[j].line,
{
    lemma_scan_from_shape(src, 0, 1, seq![], seq![]);
}

/// Two independent scans of the same buffer produce identical tokens and
/// identical errors.
pub proof fn lemma_scan_repeatable(a: Scanner, b: Scanner)
    requires
        a.source_view() == b.source_view(),
        a.tokens_view() == scan_tokens(a.source_view()),
        a.errors_view() == scan_errors(a.source_view()),
        b.tokens_view() == scan_tokens(b.source_view()),
        b.errors_view() == scan_errors(b.source_view()),
    ensures
        a.tokens_view() == b.tokens_view(),
        a.errors_view() == b.errors_view(),
{
}

proof fn lemma_word_end_all(w: Seq<u8>, i: int)
    requires
        0 <= i <= w.len(),
        forall|k: int| 0 <= k < w.len() ==> is_alphanumeric_byte(#[trigger] w[k]),
    ensures
        word_end(w, i) == w.len(),
    decreases w.len() - i,
{
    if i < w.len() {
        lemma_word_end_all(w, i + 1);
    }
}

/// A buffer holding one identifier-shaped word scans to one token, of the
/// word's reserved kind when it is in the keyword table and a generic
/// identifier otherwise, then the end-of-input marker.
pub proof fn lemma_word_scan(w: Seq<u8>)
    requires
        w.len() > 0,
        is_alpha_byte(w[0]),
        forall|k: int| 0 <= k < w.len() ==> is_alphanumeric_byte(#[trigger] w[k]),
    ensures
        scan_tokens(w) == seq![plain_token(w, 0, w.len() as int, 1, word_kind(w)), end_marker(1)],
        scan_errors(w) == Seq::<Error>::empty(),
        keyword_kind(w) matches Some(k) ==> scan_tokens(w)[0].kind == k && k
            != TokenType::Identifier,
        keyword_kind(w) is None ==> scan_tokens(w)[0].kind == TokenType::Identifier,
{
    lemma_word_end_all(w, 0);
    assert(w.subrange(0, w.len() as int) =~= w);
    let t = plain_token(w, 0, w.len() as int, 1, word_kind(w));
    assert(step(w, 0, 1).token == Some(t));
    assert(scan_from(w, w.len() as int, 1, seq![t], seq![]) == (
        seq![t].push(end_marker(1)),
        Seq::<Error>::empty(),
    ));
    assert(seq![t].push(end_marker(1)) =~= seq![t, end_marker(1)]);
    assert(Seq::<TokenView>::empty() + seq![t] =~= seq![t]);
    assert(Seq::<Error>::empty() + Seq::<Error>::empty() =~= Seq::<Error>::empty());
}

/// An operator that may take a following `=`, alone in the buffer, scans to
/// its one-byte kind (no error), then the end-of-input marker.
pub proof fn lemma_lone_operator(c: u8)
    requires
        compound_kinds(c) is Some,
    ensures
        scan_tokens(seq![c]) == seq![
            plain_token(seq![c], 0, 1, 1, (compound_kinds(c)->0).0),
            end_marker(1),
        ],
        scan_errors(seq![c]) == Seq::<Error>::empty(),
{
    let src = seq![c];
    let t = plain_token(src, 0, 1, 1, (compound_kinds(c)->0).0);
    assert(step(src, 0, 1).token == Some(t));
    assert(scan_from(src, 1, 1, seq![t], seq![]) == (seq![t].push(end_marker(1)), Seq::<Error>::empty()));
    assert(seq![t].push(end_marker(1)) =~= seq![t, end_marker(1)]);
    assert(Seq::<TokenView>::empty() + seq![t] =~= seq![t]);
    assert(Seq::<Error>::empty() + Seq::<Error>::empty() =~= Seq::<Error>::empty());
}

} // verus!
