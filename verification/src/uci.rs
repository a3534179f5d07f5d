//! Long algebraic move notation: `<from><to>[promotion-letter]`, the move
//! format the protocol collaborator hands to the engine.

use vstd::prelude::*;
use crate::model::pieces::{QUEEN, ROOK, KNIGHT, BISHOP};
use crate::util::{Error, ErrorKind, invalid_input, valid_square_notation, square_of_notation};

verus! {

/// A move as written on the wire: source, destination, optional promotion
/// kind; whether it castles is decided against a position later.
#[derive(Clone, Copy, PartialEq, Eq)]
pub struct Move {
    pub from: usize,
    pub to: usize,
    pub promote_to: Option<u8>,
}

/// The piece kind a promotion letter denotes, if any.
pub open spec fn promo_char_kind(c: char) -> Option<u8> {
    if c == 'q' || c == 'Q' {
        Some(QUEEN)
    } else if c == 'r' || c == 'R' {
        Some(ROOK)
    } else if c == 'k' || c == 'K' {
        Some(KNIGHT)
    } else if c == 'b' || c == 'B' {
        Some(BISHOP)
    } else {
        None
    }
}

/// Whether the text is exactly two well-formed squares, followed by an
/// optional recognized promotion letter: four or five characters in all.
pub open spec fn valid_move_notation(s: Seq<char>) -> bool {
    4 <= s.len() <= 5 && valid_square_notation(s.subrange(0, 2)) && valid_square_notation(
        s.subrange(2, 4),
    ) && (s.len() < 5 || promo_char_kind(s[4]) is Some)
}

/// The move a well-formed notation denotes.
pub open spec fn spec_move_of_notation(s: Seq<char>) -> Move {
    Move {
        from: square_of_notation(s.subrange(0, 2)) as usize,
        to: square_of_notation(s.subrange(2, 4)) as usize,
        promote_to: if s.len() == 5 {
            promo_char_kind(s[4])
        } else {
            None
        },
    }
}

impl Move {
    /// Parses a move from long algebraic notation; file or rank outside
    /// a..h / 1..8, a text of the wrong length, or an unrecognized
    /// promotion letter is a recoverable input error.
    pub fn from_notation(mv: &str) -> (r: Result<Move, Error>)
        ensures
            match r {
                Ok(m) => valid_move_notation(mv@) && m == spec_move_of_notation(mv@) && m.from < 64
                    && m.to < 64,
                Err(e) => !valid_move_notation(mv@) && e.kind == ErrorKind::InvalidInput,
            },
    {
        let n = mv.unicode_len();
        if n < 4 || n > 5 {
            return Err(invalid_input(String::from_str("Expected four or five characters")));
        }
        let from = match crate::util::square_notation_to_index(mv.substring_char(0, 2)) {
            Ok(index) => index,
            Err(e) => {
                return Err(e);
            },
        };
        let to = match crate::util::square_notation_to_index(mv.substring_char(2, 4)) {
            Ok(index) => index,
            Err(e) => {
                return Err(e);
            },
        };
        let promote_to: Option<u8>;
        if n == 5 {
            let c = mv.get_char(4);
            if c == 'q' || c == 'Q' {
                promote_to = Some(QUEEN);
            } else if c == 'r' || c == 'R' {
                promote_to = Some(ROOK);
            } else if c == 'k' || c == 'K' {
                promote_to = Some(KNIGHT);
            } else if c == 'b' || c == 'B' {
                promote_to = Some(BISHOP);
            } else {
                return Err(invalid_input(String::from_str("Unexpected promotion letter")));
            }
        } else {
            promote_to = None;
        }
        Ok(Move { from, to, promote_to })
    }
}

} // verus!
