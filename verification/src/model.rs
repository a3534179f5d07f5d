//! The position data model: an immutable board value, the move value, and
//! the transition that applies a move to a board.

pub mod pieces;
pub mod fen;
pub mod generator;

use vstd::prelude::*;
use crate::model::pieces::{Piece, NONE, PAWN, KNIGHT, BISHOP, ROOK, QUEEN, WHITE, BLACK};
use crate::util::notation_of_square;

verus! {

/// A move: source and destination square index, an optional promotion piece
/// kind, and a flag marking a castling king hop (which also relocates the
/// corresponding rook).
#[derive(Clone, Copy, PartialEq, Eq)]
pub struct Move {
    pub from: usize,
    pub to: usize,
    pub promote_to: Option<u8>,
    pub castle: bool,
}

/// A position: 64 piece bytes in row-major order (index 0 is a8), the
/// active-color flag, the four castling rights, and the optional en-passant
/// target square.
#[derive(Clone, Copy, Debug)]
pub struct Board {
    pub squares: [u8; 64],
    pub white_is_active: bool,
    pub castle_white_king: bool,
    pub castle_white_queen: bool,
    pub castle_black_king: bool,
    pub castle_black_queen: bool,
    pub en_passant: Option<usize>,
}

/// The mathematical view of a position: the same fields with the square
/// array abstracted to a sequence.
#[verifier::ext_equal]
pub ghost struct BoardModel {
    pub squares: Seq<u8>,
    pub white_is_active: bool,
    pub castle_white_king: bool,
    pub castle_white_queen: bool,
    pub castle_black_king: bool,
    pub castle_black_queen: bool,
    pub en_passant: Option<usize>,
}

impl View for Board {
    type V = BoardModel;

    open spec fn view(&self) -> BoardModel {
        BoardModel {
            squares: self.squares@,
            white_is_active: self.white_is_active,
            castle_white_king: self.castle_white_king,
            castle_white_queen: self.castle_white_queen,
            castle_black_king: self.castle_black_king,
            castle_black_queen: self.castle_black_queen,
            en_passant: self.en_passant,
        }
    }
}

/// The color bit of the side to move.
pub open spec fn spec_active_color(b: BoardModel) -> u8 {
    if b.white_is_active {
        WHITE
    } else {
        BLACK
    }
}

/// The color bit of the side not to move.
pub open spec fn spec_inactive_color(b: BoardModel) -> u8 {
    if b.white_is_active {
        BLACK
    } else {
        WHITE
    }
}

pub open spec fn abs_diff_int(a: int, b: int) -> int {
    if a >= b {
        a - b
    } else {
        b - a
    }
}

/// The position reached by applying `mv` to `b`: the mover (or its
/// promotion) lands on the destination, the source empties, spent castling
/// rights are cleared, a pawn double push sets the en-passant target while
/// every other move clears it, an en-passant capture removes the bypassed
/// pawn, a castle relocates the rook, and the active color toggles.
pub open spec fn spec_apply_move(b: BoardModel, mv: Move) -> BoardModel {
    let from = mv.from as int;
    let to = mv.to as int;
    let moved_piece = b.squares[from];
    let pawn_mv = moved_piece & 7 == PAWN;
    let sq1 = if pawn_mv && b.en_passant == Some(mv.to) {
        if to < 32 {
            b.squares.update(to + 8, NONE)
        } else {
            b.squares.update(to - 8, NONE)
        }
    } else {
        b.squares
    };
    let placed = match mv.promote_to {
        Some(piece) => piece | spec_active_color(b),
        None => sq1[from],
    };
    let sq2 = sq1.update(to, placed).update(from, NONE);
    let sq3 = if mv.castle {
        if to == 62 {
            sq2.update(61, sq2[63]).update(63, NONE)
        } else if to == 58 {
            sq2.update(59, sq2[56]).update(56, NONE)
        } else if to == 6 {
            sq2.update(5, sq2[7]).update(7, NONE)
        } else if to == 2 {
            sq2.update(3, sq2[0]).update(0, NONE)
        } else {
            sq2
        }
    } else {
        sq2
    };
    BoardModel {
        squares: sq3,
        white_is_active: !b.white_is_active,
        castle_white_king: b.castle_white_king && from != 60 && from != 63 && to != 63,
        castle_white_queen: b.castle_white_queen && from != 60 && from != 56 && to != 56,
        castle_black_king: b.castle_black_king && from != 4 && from != 7 && to != 7,
        castle_black_queen: b.castle_black_queen && from != 4 && from != 0 && to != 0,
        en_passant: if pawn_mv && abs_diff_int(from / 8, to / 8) > 1 {
            Some(((from + to) / 2) as usize)
        } else {
            None
        },
    }
}

/// Applying a move always toggles the active-color flag, so toggling the
/// successor's flag recovers the pre-move active color, and toggling twice
/// restores the successor's own value: the parity of the flag tracks the
/// number of applied moves exactly.
pub proof fn lemma_active_color_parity(b: BoardModel, mv: Move)
    ensures
        spec_apply_move(b, mv).white_is_active == !b.white_is_active,
        !spec_apply_move(b, mv).white_is_active == b.white_is_active,
        spec_active_color(spec_apply_move(b, mv)) == spec_inactive_color(b),
{
}

/// A castling right, once cleared, never becomes true again: applying any
/// move can only keep or clear each of the four flags.
pub proof fn lemma_castling_rights_monotonic(b: BoardModel, mv: Move)
    ensures
        spec_apply_move(b, mv).castle_white_king ==> b.castle_white_king,
        spec_apply_move(b, mv).castle_white_queen ==> b.castle_white_queen,
        spec_apply_move(b, mv).castle_black_king ==> b.castle_black_king,
        spec_apply_move(b, mv).castle_black_queen ==> b.castle_black_queen,
{
}

/// The en-passant target is set only by a pawn's double push, and every
/// other move clears it.
pub proof fn lemma_en_passant_discipline(b: BoardModel, mv: Move)
    ensures
        spec_apply_move(b, mv).en_passant is Some ==> b.squares[mv.from as int] & 7 == PAWN
            && abs_diff_int(mv.from as int / 8, mv.to as int / 8) > 1,
        spec_apply_move(b, mv).en_passant is Some ==> spec_apply_move(b, mv).en_passant == Some(
            ((mv.from + mv.to) / 2) as usize,
        ),
{
}

/// The character sequence of a move in long algebraic notation.
pub open spec fn spec_move_notation(mv: Move) -> Seq<char> {
    let squares = notation_of_square(mv.from as int) + notation_of_square(mv.to as int);
    match mv.promote_to {
        Some(piece) => if piece == QUEEN {
            squares.push('q')
        } else if piece == ROOK {
            squares.push('r')
        } else if piece == KNIGHT {
            squares.push('k')
        } else if piece == BISHOP {
            squares.push('b')
        } else {
            squares
        },
        None => squares,
    }
}

impl Move {
    pub fn regular(from: usize, to: usize) -> (r: Move)
        ensures
            r == (Move { from, to, promote_to: None, castle: false }),
    {
        Move { from, to, promote_to: None, castle: false }
    }

    pub fn castle(from: usize, to: usize) -> (r: Move)
        ensures
            r == (Move { from, to, promote_to: None, castle: true }),
    {
        Move { from, to, promote_to: None, castle: true }
    }

    pub fn promotion(from: usize, to: usize, piece: u8) -> (r: Move)
        ensures
            r == (Move { from, to, promote_to: Some(piece), castle: false }),
    {
        Move { from, to, promote_to: Some(piece), castle: false }
    }

    /// Whether this is the all-zero placeholder move.
    pub fn is_null(&self) -> (r: bool)
        ensures
            r == (*self == (Move { from: 0, to: 0, promote_to: None, castle: false })),
    {
        self.from == 0 && self.to == 0 && self.promote_to.is_none() && !self.castle
    }

    pub fn to_notation(&self) -> (r: String)
        requires
            self.from < 64,
            self.to < 64,
        ensures
            r@ == spec_move_notation(*self),
    {
        let mut bytes: Vec<u8> = Vec::new();
        bytes.push(97 + (self.from % 8) as u8);
        bytes.push(56 - (self.from / 8) as u8);
        bytes.push(97 + (self.to % 8) as u8);
        bytes.push(56 - (self.to / 8) as u8);
        if let Some(piece) = self.promote_to {
            if piece == QUEEN {
                bytes.push(113);
            } else if piece == ROOK {
                bytes.push(114);
            } else if piece == KNIGHT {
                bytes.push(107);
            } else if piece == BISHOP {
                bytes.push(98);
            }
        }
        let s = crate::util::ascii_chars(bytes);
        proof {
            assert(s@ =~= spec_move_notation(*self));
        }
        s
    }
}

impl Board {
    pub fn active_color(&self) -> (r: u8)
        ensures
            r == spec_active_color(self@),
    {
        if self.white_is_active {
            WHITE
        } else {
            BLACK
        }
    }

    pub fn inactive_color(&self) -> (r: u8)
        ensures
            r == spec_inactive_color(self@),
    {
        if self.white_is_active {
            BLACK
        } else {
            WHITE
        }
    }

    #[verifier::rlimit(100)]
    pub fn make_move(&self, mv: &Move) -> (r: Board)
        requires
            mv.from < 64,
            mv.to < 64,
        ensures
            r@ == spec_apply_move(self@, *mv),
    {
        let mut result = self.clone();
        let moved_piece = self.squares[mv.from];

        // Disable castling
        if mv.from == 60 {
            result.castle_white_king = false;
            result.castle_white_queen = false;
        }
        if mv.from == 63 || mv.to == 63 {
            result.castle_white_king = false;
        }
        if mv.from == 56 || mv.to == 56 {
            result.castle_white_queen = false;
        }
        if mv.from == 4 {
            result.castle_black_king = false;
            result.castle_black_queen = false;
        }
        if mv.from == 7 || mv.to == 7 {
            result.castle_black_king = false;
        }
        if mv.from == 0 || mv.to == 0 {
            result.castle_black_queen = false;
        }

        let from_rank = mv.from / 8;
        let to_rank = mv.to / 8;
        let rank_gap = if from_rank >= to_rank {
            from_rank - to_rank
        } else {
            to_rank - from_rank
        };
        if moved_piece.is_pawn() && rank_gap > 1 {
            result.en_passant = Some((mv.from + mv.to) / 2);
        } else {
            result.en_passant = None;
        }
        let ep_capture = match self.en_passant {
            Some(square) => square == mv.to,
            None => false,
        };
        if moved_piece.is_pawn() && ep_capture {
            if mv.to < 32 {
                result.squares[mv.to + 8] = NONE;
            } else {
                result.squares[mv.to - 8] = NONE;
            }
        }

        result.squares[mv.to] = match mv.promote_to {
            Some(piece) => pieces::new(piece, self.active_color()),
            None => result.squares[mv.from],
        };
        result.squares[mv.from] = 0;
        if mv.castle {
            match mv.to {
                62 => {
                    result.squares[61] = result.squares[63];
                    result.squares[63] = NONE;
                },
                58 => {
                    result.squares[59] = result.squares[56];
                    result.squares[56] = NONE;
                },
                6 => {
                    result.squares[5] = result.squares[7];
                    result.squares[7] = NONE;
                },
                2 => {
                    result.squares[3] = result.squares[0];
                    result.squares[0] = NONE;
                },
                _ => (),
            }
        }

        result.white_is_active = !result.white_is_active;
        proof {
            assert(result@ =~= spec_apply_move(self@, *mv));
        }
        result
    }
}

} // verus!
