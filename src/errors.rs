use vstd::prelude::*;

verus! {

/// A lexical error found while scanning, with the 1-based line it occurred on.
#[derive(Debug, Clone, Copy, PartialEq, Eq, Structural)]
pub enum Error {
    /// A byte that starts no token.
    UnrecognizedCharacter { character: u8, line: u64 },
    /// A string literal whose closing quote never came.
    UnterminatedString { line: u64 },
    /// A string literal whose body is not valid UTF-8.
    InvalidEncoding { line: u64 },
}

} // verus!
