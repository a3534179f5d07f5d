//! Input errors, and the conversion between square indices and the
//! two-character file+rank notation.
//!
//! Square indices run row-major over [0,64): index 0 is a8, index 7 is h8,
//! index 56 is a1, index 63 is h1.

use vstd::prelude::*;

verus! {

#[derive(Clone, Copy, PartialEq, Eq, Structural, Debug)]
pub enum ErrorKind {
    InvalidInput,
}

/// A recoverable input error: malformed position record, malformed move
/// notation, or an out-of-range square index.
#[derive(Debug)]
pub struct Error {
    pub kind: ErrorKind,
    pub msg: String,
}

impl Error {
    /// The human-readable description of the error.
    pub fn message(&self) -> (r: &str)
        ensures
            r@ == self.msg@,
    {
        self.msg.as_str()
    }
}

pub fn new(kind: ErrorKind, msg: String) -> (r: Error)
    ensures
        r.kind == kind,
        r.msg == msg,
{
    Error { kind, msg }
}

pub fn invalid_input(msg: String) -> (r: Error)
    ensures
        r.kind == ErrorKind::InvalidInput,
        r.msg == msg,
{
    new(ErrorKind::InvalidInput, msg)
}

/// Relies on String::from_utf8: a vector of ASCII bytes decodes to the
/// string holding exactly those characters.
#[verifier::external_body]
pub(crate) fn ascii_chars(bytes: Vec<u8>) -> (r: String)
    requires
        forall|i: int| 0 <= i < bytes@.len() ==> bytes@[i] < 128,
    ensures
        r@ == bytes@.map_values(|b: u8| b as char),
{
    String::from_utf8(bytes).unwrap_or_default()
}

/// Whether a character sequence starts with a well-formed square notation:
/// a file letter in a..h followed by a rank digit in 1..8.
pub open spec fn valid_square_notation(s: Seq<char>) -> bool {
    s.len() >= 2 && 'a' <= s[0] <= 'h' && '1' <= s[1] <= '8'
}

/// The index a well-formed square notation denotes.
pub open spec fn square_of_notation(s: Seq<char>) -> int {
    (8 - (s[1] as int - '0' as int)) * 8 + (s[0] as int - 'a' as int)
}

/// The two-character notation of a square index in [0,64).
pub open spec fn notation_of_square(i: int) -> Seq<char> {
    seq![((97 + i % 8) as u8) as char, ((56 - i / 8) as u8) as char]
}

/// Square notation and square index are inverse to each other over [0,64).
pub proof fn lemma_square_notation_bijection(i: int)
    requires
        0 <= i < 64,
    ensures
        valid_square_notation(notation_of_square(i)),
        square_of_notation(notation_of_square(i)) == i,
{
}

pub fn square_notation_to_index(square: &str) -> (r: Result<usize, Error>)
    ensures
        match r {
            Ok(i) => valid_square_notation(square@) && i == square_of_notation(square@) && i < 64,
            Err(e) => !valid_square_notation(square@) && e.kind == ErrorKind::InvalidInput,
        },
{
    if square.unicode_len() < 2 {
        return Err(invalid_input(String::from_str("Unexpected empty file identifier")));
    }
    let file_char = square.get_char(0);
    if file_char < 'a' || file_char > 'h' {
        return Err(invalid_input(String::from_str("Unexpected file identifier")));
    }
    let rank_char = square.get_char(1);
    if rank_char < '1' || rank_char > '8' {
        return Err(invalid_input(String::from_str("Expected rank num in 1..8")));
    }
    let file = file_char as u32 - 97;
    let rank = rank_char as u32 - 48;
    Ok(((8 - rank) * 8 + file) as usize)
}

pub fn index_to_square_notation(index: usize) -> (r: Result<String, Error>)
    ensures
        match r {
            Ok(s) => index < 64 && s@ == notation_of_square(index as int),
            Err(e) => index >= 64 && e.kind == ErrorKind::InvalidInput,
        },
{
    if index >= 64 {
        return Err(invalid_input(String::from_str("Square index must be i < 64")));
    }
    let file: u8 = 97 + (index % 8) as u8;
    let rank: u8 = 56 - (index / 8) as u8;
    let bytes: Vec<u8> = vec![file, rank];
    let s = ascii_chars(bytes);
    proof {
        assert(s@ =~= notation_of_square(index as int));
    }
    Ok(s)
}

} // verus!
