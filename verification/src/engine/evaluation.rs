//! The static evaluator: material count from the mover's perspective, with
//! a mate sentinel for positions without legal moves; and the capture test
//! used by the move orderer.

use vstd::prelude::*;
use crate::model::pieces::{Piece, NONE, PAWN, KNIGHT, BISHOP, ROOK, QUEEN, BLACK};
use crate::model::{Board, BoardModel, Move};
use crate::model::generator::spec_legal_moves;

verus! {

/// The most negative score: a side with no legal moves is mated (or
/// stalemated), and shallower mates score more extremely than deeper ones
/// through the depth offset.
pub const MATE_SCORE: i32 = i32::MIN + 10;

/// The signed material value of one square: king 0, pawn 100, knight 300,
/// bishop 310, rook 600, queen 900; negative for black pieces.
pub open spec fn piece_value(p: u8) -> int {
    let magnitude: int = if p & 7 == PAWN {
        100
    } else if p & 7 == KNIGHT {
        300
    } else if p & 7 == BISHOP {
        310
    } else if p & 7 == ROOK {
        600
    } else if p & 7 == QUEEN {
        900
    } else {
        0
    };
    if p & BLACK > 0 {
        -magnitude
    } else {
        magnitude
    }
}

/// The summed material of the squares with index at least `i`.
pub open spec fn material_from(sq: Seq<u8>, i: int) -> int
    decreases 64 - i,
{
    if i < 0 || i >= 64 {
        0
    } else {
        piece_value(sq[i]) + material_from(sq, i + 1)
    }
}

/// The score of a position from the perspective of the side to move:
/// the mate sentinel offset by the distance from the search root when no
/// legal move exists, otherwise the material sum, negated for black.
pub open spec fn spec_evaluate(b: BoardModel, depth: int) -> int {
    if spec_legal_moves(b, false).len() == 0 {
        MATE_SCORE + depth
    } else {
        let m = material_from(b.squares, 0);
        if b.white_is_active {
            m
        } else {
            -m
        }
    }
}

/// The first `i` squares contribute at most 900 points each.
pub proof fn lemma_material_prefix_bounds(sq: Seq<u8>, i: int)
    requires
        0 <= i <= 64,
    ensures
        -900 * i <= material_from(sq, 0) - material_from(sq, i) <= 900 * i,
    decreases i,
{
    if i > 0 {
        lemma_material_prefix_bounds(sq, i - 1);
        assert(material_from(sq, i - 1) == piece_value(sq[i - 1]) + material_from(sq, i));
    }
}

impl Board {
    /// The signed material value of one piece byte.
    fn value(piece: u8) -> (r: i32)
        ensures
            r as int == piece_value(piece),
    {
        let kind = piece.without_color();
        let mut result: i32 = if kind == PAWN {
            100
        } else if kind == KNIGHT {
            300
        } else if kind == BISHOP {
            310
        } else if kind == ROOK {
            600
        } else if kind == QUEEN {
            900
        } else {
            0
        };
        if piece.is_color(BLACK) {
            result = -result;
        }
        result
    }

    /// The static score of this position for the side to move, where
    /// `depth` is the distance from the search root.
    pub fn evaluate(&self, depth: u32) -> (r: i32)
        requires
            depth <= 0x1000_0000,
        ensures
            r as int == spec_evaluate(self@, depth as int),
    {
        if self.gen_moves(false).is_empty() {
            return MATE_SCORE + depth as i32;
        }
        let mut result: i32 = 0;
        for i in 0..64usize
            invariant
                result as int == material_from(self@.squares, 0) - material_from(
                    self@.squares,
                    i as int,
                ),
                -900 * i <= result as int <= 900 * i,
        {
            proof {
                lemma_material_prefix_bounds(self@.squares, i as int + 1);
            }
            result = result + Board::value(self.squares[i]);
        }
        if self.white_is_active {
            result
        } else {
            -result
        }
    }
}

/// Whether `mv` captures in `b`: its destination is occupied or equals the
/// en-passant target.
pub open spec fn spec_is_capture(b: BoardModel, mv: Move) -> bool {
    b.squares[mv.to as int] != NONE || b.en_passant == Some(mv.to)
}

impl Move {
    /// Whether this move captures on `board`.
    pub fn is_capture(&self, board: &Board) -> (r: bool)
        requires
            self.to < 64,
        ensures
            r == spec_is_capture(board@, *self),
    {
        let ep_hit = match board.en_passant {
            Some(square) => square == self.to,
            None => false,
        };
        board.squares[self.to] != NONE || ep_hit
    }
}

} // verus!
