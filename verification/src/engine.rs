//! The engine: static evaluation, move ordering, the search, and the
//! exhaustive move-tree count ("perft") used to validate the generator.

pub mod evaluation;
pub mod ordering;
pub mod searcher;

use vstd::prelude::*;
use crate::model::pieces::Piece;
use crate::model::generator::spec_legal_moves;
use crate::model::{Board, BoardModel, Move, spec_apply_move};
use crate::uci;

verus! {

/// The engine owns the current position.
pub struct Engine {
    pub board: Board,
}

/// Addition capped at the evaluation counter's width.
pub open spec fn sat_add(a: int, b: int) -> int {
    if a + b > u64::MAX {
        u64::MAX as int
    } else {
        a + b
    }
}

pub proof fn lemma_sat_add_assoc(a: int, b: int, c: int)
    requires
        a >= 0,
        b >= 0,
        c >= 0,
    ensures
        sat_add(sat_add(a, b), c) == sat_add(a, sat_add(b, c)),
{
}

/// The exhaustive legal-move node count at the given depth: the number of
/// legal move sequences of exactly `depth` moves (0 at depth 0, capped at
/// the counter's width).
pub open spec fn spec_perft(b: BoardModel, depth: int) -> int
    decreases depth, spec_legal_moves(b, false).len() + 1,
{
    if depth <= 0 {
        0
    } else if depth == 1 {
        spec_legal_moves(b, false).len() as int
    } else {
        perft_sum(b, depth, 0)
    }
}

/// The capped sum of the subtree counts of the legal moves with index at
/// least `i`.
pub open spec fn perft_sum(b: BoardModel, depth: int, i: int) -> int
    decreases depth, spec_legal_moves(b, false).len() - i,
{
    let moves = spec_legal_moves(b, false);
    if depth <= 1 || i < 0 || i >= moves.len() {
        0
    } else {
        sat_add(
            spec_perft(spec_apply_move(b, moves[i]), depth - 1),
            perft_sum(b, depth, i + 1),
        )
    }
}

pub proof fn lemma_perft_nonneg(b: BoardModel, depth: int)
    ensures
        spec_perft(b, depth) >= 0,
    decreases depth, spec_legal_moves(b, false).len() + 1,
{
    if depth > 1 {
        lemma_perft_sum_nonneg(b, depth, 0);
    }
}

pub proof fn lemma_perft_sum_nonneg(b: BoardModel, depth: int, i: int)
    ensures
        perft_sum(b, depth, i) >= 0,
    decreases depth, spec_legal_moves(b, false).len() - i,
{
    let moves = spec_legal_moves(b, false);
    if depth > 1 && 0 <= i < moves.len() {
        lemma_perft_nonneg(spec_apply_move(b, moves[i]), depth - 1);
        lemma_perft_sum_nonneg(b, depth, i + 1);
    }
}

impl Engine {
    /// An engine set up on the standard starting position.
    pub fn new() -> (r: Engine)
        ensures
            r.board@ == crate::model::fen::start_board(),
    {
        Engine { board: Board::new() }
    }

    /// The exhaustive legal-move node count of the current position at
    /// `depth`, saturating at the counter's width.
    pub fn performance_test(&self, depth: u8) -> (r: u64)
        ensures
            r as int == spec_perft(self.board@, depth as int),
    {
        self.performance_test_recursive(&self.board, depth)
    }

    fn performance_test_recursive(&self, board: &Board, depth: u8) -> (r: u64)
        ensures
            r as int == spec_perft(board@, depth as int),
        decreases depth,
    {
        if depth == 0 {
            return 0;
        }
        let moves = board.gen_moves(false);
        if depth == 1 {
            return moves.len() as u64;
        }
        let mut result: u64 = 0;
        let moves_len = moves.len();
        for i in 0..moves_len
            invariant
                moves_len == moves@.len(),
                moves@ == spec_legal_moves(board@, false),
                2 <= depth,
                forall|k: int|
                    0 <= k < moves@.len() ==> (#[trigger] moves@[k]).from < 64 && moves@[k].to
                        < 64,
                sat_add(result as int, perft_sum(board@, depth as int, i as int)) == perft_sum(
                    board@,
                    depth as int,
                    0,
                ),
        {
            let child = board.make_move(&moves[i]);
            let acc = self.performance_test_recursive(&child, depth - 1);
            proof {
                lemma_perft_nonneg(child@, depth as int - 1);
                lemma_perft_sum_nonneg(board@, depth as int, i as int + 1);
                lemma_sat_add_assoc(
                    result as int,
                    acc as int,
                    perft_sum(board@, depth as int, i as int + 1),
                );
            }
            result = result.saturating_add(acc);
        }
        result
    }

    /// Marks a wire move as a castle when it is a king's two-square hop on
    /// the current position.
    pub fn uci_move_to_inner_model(&self, mv: &uci::Move) -> (r: Move)
        requires
            mv.from < 64,
        ensures
            r.from == mv.from,
            r.to == mv.to,
            r.promote_to == mv.promote_to,
            r.castle == (self.board@.squares[mv.from as int] & 7 == crate::model::pieces::KING
                && crate::model::abs_diff_int(mv.from as int, mv.to as int) == 2),
    {
        let gap = if mv.from >= mv.to {
            mv.from - mv.to
        } else {
            mv.to - mv.from
        };
        let castle = self.board.squares[mv.from].is_king() && gap == 2;
        Move { from: mv.from, to: mv.to, promote_to: mv.promote_to, castle }
    }
}

} // verus!
