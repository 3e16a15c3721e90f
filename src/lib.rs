//! A lexical scanner for a small dynamic scripting language, with its
//! behaviour stated as a function on byte sequences and proved.
use vstd::prelude::*;
use vstd::utf8::{decode_utf8_encode_utf8, valid_utf8};

pub mod errors;
pub mod expr;
pub mod keywords;
pub mod lexicon;
pub mod scanner;
pub mod theorems;
pub mod tokens;

use crate::lexicon::{scan_errors, scan_tokens};
use crate::scanner::{decode_text, Scanner};

verus! {

/// Scans a buffer of raw bytes. The buffer is checked to be UTF-8 text up
/// front: `None` when it is not, otherwise the scanner after one full pass.
pub fn run(bytes: Vec<u8>) -> (r: Option<Scanner>)
    requires
        bytes@.len() < u64::MAX,
    ensures
        r is Some <==> valid_utf8(bytes@),
        r matches Some(s) ==> {
            &&& s.source_view() == bytes@
            &&& s.tokens_view() == scan_tokens(bytes@)
            &&& s.errors_view() == scan_errors(bytes@)
            &&& s.error_flag() == (scan_errors(bytes@).len() > 0)
        },
{
    let ghost b = bytes@;
    match decode_text(bytes) {
        None => None,
        Some(text) => {
            proof {
                decode_utf8_encode_utf8(b);
            }
            let mut scanner = Scanner::new(text);
            scanner.scan();
            Some(scanner)
        },
    }
}

} // verus!
