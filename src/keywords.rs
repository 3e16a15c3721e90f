use vstd::prelude::*;

use crate::tokens::TokenType;

verus! {

/// The reserved words of the language and the token kind of each
/// (exact, case-sensitive spelling). `super` is not among them: its token
/// kind exists, but the word scans as an identifier.
pub open spec fn keyword_kind(w: Seq<u8>) -> Option<TokenType> {
    if w == seq!['a' as u8, 'n' as u8, 'd' as u8] {
        Some(TokenType::And)
    } else if w == seq!['c' as u8, 'l' as u8, 'a' as u8, 's' as u8, 's' as u8] {
        Some(TokenType::Class)
    } else if w == seq!['e' as u8, 'l' as u8, 's' as u8, 'e' as u8] {
        Some(TokenType::Else)
    } else if w == seq!['f' as u8, 'a' as u8, 'l' as u8, 's' as u8, 'e' as u8] {
        Some(TokenType::False)
    } else if w == seq!['f' as u8, 'o' as u8, 'r' as u8] {
        Some(TokenType::For)
    } else if w == seq!['f' as u8, 'u' as u8, 'n' as u8] {
        Some(TokenType::Fun)
    } else if w == seq!['i' as u8, 'f' as u8] {
        Some(TokenType::If)
    } else if w == seq!['n' as u8, 'i' as u8, 'l' as u8] {
        Some(TokenType::Nil)
    } else if w == seq!['o' as u8, 'r' as u8] {
        Some(TokenType::Or)
    } else if w == seq!['p' as u8, 'r' as u8, 'i' as u8, 'n' as u8, 't' as u8] {
        Some(TokenType::Print)
    } else if w == seq!['r' as u8, 'e' as u8, 't' as u8, 'u' as u8, 'r' as u8, 'n' as u8] {
        Some(TokenType::Return)
    } else if w == seq!['t' as u8, 'h' as u8, 'i' as u8, 's' as u8] {
        Some(TokenType::This)
    } else if w == seq!['t' as u8, 'r' as u8, 'u' as u8, 'e' as u8] {
        Some(TokenType::True)
    } else if w == seq!['v' as u8, 'a' as u8, 'r' as u8] {
        Some(TokenType::Var)
    } else if w == seq!['w' as u8, 'h' as u8, 'i' as u8, 'l' as u8, 'e' as u8] {
        Some(TokenType::While)
    } else {
        None
    }
}

/// Whether `a` and `b` hold the same bytes.
fn same_bytes(a: &[u8], b: &[u8]) -> (r: bool)
    ensures
        r == (a@ == b@),
{
    if a.len() != b.len() {
        return false;
    }
    let mut i: usize = 0;
    while i < a.len()
        invariant
            a@.len() == b@.len(),
            0 <= i <= a@.len(),
            a@.subrange(0, i as int) == b@.subrange(0, i as int),
        decreases a@.len() - i,
    {
        if a[i] != b[i] {
            assert(a@[i as int] != b@[i as int]);
            return false;
        }
        assert(a@.subrange(0, i + 1) =~= a@.subrange(0, i as int).push(a@[i as int]));
        assert(b@.subrange(0, i + 1) =~= b@.subrange(0, i as int).push(b@[i as int]));
        i = i + 1;
    }
    assert(a@ =~= a@.subrange(0, i as int));
    assert(b@ =~= b@.subrange(0, i as int));
    true
}

/// Looks a spelling up in the keyword table.
pub fn keyword(w: &[u8]) -> (r: Option<TokenType>)
    ensures
        r == keyword_kind(w@),
{
    if same_bytes(w, &['a' as u8, 'n' as u8, 'd' as u8]) {
        Some(TokenType::And)
    } else if same_bytes(w, &['c' as u8, 'l' as u8, 'a' as u8, 's' as u8, 's' as u8]) {
        Some(TokenType::Class)
    } else if same_bytes(w, &['e' as u8, 'l' as u8, 's' as u8, 'e' as u8]) {
        Some(TokenType::Else)
    } else if same_bytes(w, &['f' as u8, 'a' as u8, 'l' as u8, 's' as u8, 'e' as u8]) {
        Some(TokenType::False)
    } else if same_bytes(w, &['f' as u8, 'o' as u8, 'r' as u8]) {
        Some(TokenType::For)
    } else if same_bytes(w, &['f' as u8, 'u' as u8, 'n' as u8]) {
        Some(TokenType::Fun)
    } else if same_bytes(w, &['i' as u8, 'f' as u8]) {
        Some(TokenType::If)
    } else if same_bytes(w, &['n' as u8, 'i' as u8, 'l' as u8]) {
        Some(TokenType::Nil)
    } else if same_bytes(w, &['o' as u8, 'r' as u8]) {
        Some(TokenType::Or)
    } else if same_bytes(w, &['p' as u8, 'r' as u8, 'i' as u8, 'n' as u8, 't' as u8]) {
        Some(TokenType::Print)
    } else if same_bytes(w, &['r' as u8, 'e' as u8, 't' as u8, 'u' as u8, 'r' as u8, 'n' as u8]) {
        Some(TokenType::Return)
    } else if same_bytes(w, &['t' as u8, 'h' as u8, 'i' as u8, 's' as u8]) {
        Some(TokenType::This)
    } else if same_bytes(w, &['t' as u8, 'r' as u8, 'u' as u8, 'e' as u8]) {
        Some(TokenType::True)
    } else if same_bytes(w, &['v' as u8, 'a' as u8, 'r' as u8]) {
        Some(TokenType::Var)
    } else if same_bytes(w, &['w' as u8, 'h' as u8, 'i' as u8, 'l' as u8, 'e' as u8]) {
        Some(TokenType::While)
    } else {
        None
    }
}

} // verus!
