//! The search engine: negamax with alpha-beta pruning over the ordered
//! legal moves, a capture-only quiescence extension seeded by the static
//! evaluation, and iterative deepening at the top.
//!
//! Each executable search function returns exactly the outcome of its spec
//! mirror, so score, principal variation and evaluated-leaf count are all
//! pinned down; and `lemma_alpha_beta_equals_minimax` proves that under
//! the full window the pruned score equals a full unpruned negamax of the
//! same depth, so the cutoffs never change the search's result.

use vstd::prelude::*;
use crate::engine::{Engine, sat_add};
use crate::engine::evaluation::spec_evaluate;
use crate::engine::ordering::{spec_order, captures_matching, lemma_order_membership};
use crate::model::generator::{
    spec_legal_moves, legal_from, pseudo_mv_ok, spec_is_legal, spec_is_quiescence_capture,
    lemma_pseudo_moves_ok, count_pieces, lemma_count_nonneg, lemma_count_le,
    lemma_apply_move_count,
};
use crate::model::{Board, BoardModel, Move, spec_apply_move};

verus! {

broadcast use vstd::array::group_array_axioms;

/// One recursive node of the search: the position, the score window, the
/// remaining depth budget and the distance from the root.
#[derive(Clone, Copy)]
pub struct SearchState {
    pub board: Board,
    pub alpha: i32,
    pub beta: i32,
    pub depth_left: i8,
    pub current_depth: u32,
}

/// What a search node reports: the principal variation, its score, and the
/// number of evaluated leaves.
pub struct SearchResult {
    pub moves: Vec<Move>,
    pub score: i32,
    pub evaluations: u64,
}

/// The mathematical view of a search node's report.
#[verifier::ext_equal]
pub ghost struct SearchOutcome {
    pub score: int,
    pub line: Seq<Move>,
    pub evaluations: int,
}

/// The legal moves (captures only in quiescence mode), captures first.
pub open spec fn spec_ordered_moves(b: BoardModel, only_captures: bool) -> Seq<Move> {
    spec_order(b, spec_legal_moves(b, only_captures))
}

/// What holds of each move the search iterates over.
pub open spec fn legal_mv_ok(b: BoardModel, only_captures: bool, mv: Move) -> bool {
    pseudo_mv_ok(b, mv) && spec_is_legal(b, mv) && (only_captures
        ==> spec_is_quiescence_capture(b, mv))
}

proof fn lemma_legal_from_props(b: BoardModel, only_captures: bool, i: int)
    ensures
        forall|k: int|
            0 <= k < legal_from(b, only_captures, i).len() ==> legal_mv_ok(
                b,
                only_captures,
                #[trigger] legal_from(b, only_captures, i)[k],
            ),
    decreases crate::model::generator::spec_pseudo_moves(b).len() - i,
{
    let pseudo = crate::model::generator::spec_pseudo_moves(b);
    if 0 <= i < pseudo.len() {
        lemma_legal_from_props(b, only_captures, i + 1);
        lemma_pseudo_moves_ok(b);
        let cur = legal_from(b, only_captures, i);
        let rest = legal_from(b, only_captures, i + 1);
        assert forall|k: int| 0 <= k < cur.len() implies legal_mv_ok(
            b,
            only_captures,
            cur[k],
        ) by {
            if cur.len() > rest.len() && k == 0 {
                assert(cur[0] == pseudo[i]);
                assert(pseudo_mv_ok(b, pseudo[i]));
            } else {
                assert(cur[k] == rest[k - (cur.len() - rest.len())]);
            }
        }
    }
}

/// Every move the search iterates over is a legal move of the position,
/// well-formed, and a capture in quiescence mode.
pub proof fn lemma_ordered_props(b: BoardModel, only_captures: bool)
    ensures
        forall|k: int|
            0 <= k < spec_ordered_moves(b, only_captures).len() ==> legal_mv_ok(
                b,
                only_captures,
                #[trigger] spec_ordered_moves(b, only_captures)[k],
            ),
        forall|k: int|
            0 <= k < spec_ordered_moves(b, only_captures).len() ==> spec_legal_moves(
                b,
                only_captures,
            ).contains(#[trigger] spec_ordered_moves(b, only_captures)[k]),
{
    let legal = spec_legal_moves(b, only_captures);
    let ordered = spec_ordered_moves(b, only_captures);
    lemma_legal_from_props(b, only_captures, 0);
    lemma_order_membership(b, legal, 0, true);
    lemma_order_membership(b, legal, 0, false);
    let capt = captures_matching(b, legal, 0, true);
    let rest = captures_matching(b, legal, 0, false);
    assert forall|k: int| 0 <= k < ordered.len() implies legal.contains(ordered[k])
        && legal_mv_ok(b, only_captures, ordered[k]) by {
        if k < capt.len() {
            assert(ordered[k] == capt[k]);
        } else {
            assert(ordered[k] == rest[k - capt.len()]);
        }
        assert(legal.contains(ordered[k]));
        let j = choose|j: int| 0 <= j < legal.len() && legal[j] == ordered[k];
        assert(legal_mv_ok(b, only_captures, legal[j]));
    }
}

/// The alpha-beta node value: with depth left and legal moves, try each
/// ordered move with the window negated and swapped; a child score at or
/// above beta prunes the node to beta, one above alpha becomes the new
/// best line; otherwise the node settles at alpha. Without depth or moves
/// the node delegates to quiescence.
pub open spec fn spec_alpha_beta(
    b: BoardModel,
    depth_left: int,
    alpha: int,
    beta: int,
    ply: int,
) -> SearchOutcome
    decreases depth_left, count_pieces(b.squares), 3int, 0int,
        when b.squares.len() == 64 && depth_left >= 0
{
    let moves = spec_ordered_moves(b, false);
    if depth_left == 0 || moves.len() == 0 {
        spec_quiescence(b, alpha, beta, ply)
    } else {
        ab_loop(b, depth_left, 0, alpha, beta, ply, Seq::empty(), 0)
    }
}

/// The alpha-beta move loop from move index `i`, carrying the raised
/// window bound, the best line so far and the leaf count.
pub open spec fn ab_loop(
    b: BoardModel,
    depth_left: int,
    i: int,
    alpha: int,
    beta: int,
    ply: int,
    best: Seq<Move>,
    evals: int,
) -> SearchOutcome
    decreases depth_left, count_pieces(b.squares), 2int, spec_ordered_moves(b, false).len() - i,
        when b.squares.len() == 64 && depth_left >= 1 && i >= 0
{
    let moves = spec_ordered_moves(b, false);
    if i >= moves.len() {
        SearchOutcome { score: alpha, line: best, evaluations: evals }
    } else {
        let child = spec_alpha_beta(
            spec_apply_move(b, moves[i]),
            depth_left - 1,
            -beta,
            -alpha,
            ply + 1,
        );
        let score = -child.score;
        let evals2 = sat_add(evals, child.evaluations);
        if score >= beta {
            SearchOutcome { score: beta, line: Seq::empty(), evaluations: evals2 }
        } else if score > alpha {
            ab_loop(b, depth_left, i + 1, score, beta, ply, seq![moves[i]] + child.line, evals2)
        } else {
            ab_loop(b, depth_left, i + 1, alpha, beta, ply, best, evals2)
        }
    }
}

/// The quiescence node value: the static evaluation stands pat (pruning
/// to beta when it already meets it, raising alpha otherwise), then the
/// ordered capturing moves are searched the same way.
pub open spec fn spec_quiescence(b: BoardModel, alpha: int, beta: int, ply: int) -> SearchOutcome
    decreases 0int, count_pieces(b.squares), 2int, 0int,
        when b.squares.len() == 64
{
    let eval = spec_evaluate(b, ply);
    if eval >= beta {
        SearchOutcome { score: beta, line: Seq::empty(), evaluations: 1 }
    } else {
        let alpha2 = if eval > alpha {
            eval
        } else {
            alpha
        };
        quiesce_loop(b, 0, alpha2, beta, ply, 1)
    }
}

/// The quiescence capture loop from capture index `i`.
pub open spec fn quiesce_loop(
    b: BoardModel,
    i: int,
    alpha: int,
    beta: int,
    ply: int,
    evals: int,
) -> SearchOutcome
    decreases 0int, count_pieces(b.squares), 1int, spec_ordered_moves(b, true).len() - i,
        when b.squares.len() == 64 && i >= 0
        via quiesce_loop_decreases
{
    let moves = spec_ordered_moves(b, true);
    if i >= moves.len() {
        SearchOutcome { score: alpha, line: Seq::empty(), evaluations: evals }
    } else {
        let child = spec_quiescence(spec_apply_move(b, moves[i]), -beta, -alpha, ply + 1);
        let score = -child.score;
        let evals2 = sat_add(evals, child.evaluations);
        if score >= beta {
            SearchOutcome { score: beta, line: Seq::empty(), evaluations: evals2 }
        } else {
            let alpha2 = if score > alpha {
                score
            } else {
                alpha
            };
            quiesce_loop(b, i + 1, alpha2, beta, ply, evals2)
        }
    }
}

#[via_fn]
proof fn quiesce_loop_decreases(b: BoardModel, i: int, alpha: int, beta: int, ply: int, evals: int) {
    let moves = spec_ordered_moves(b, true);
    if b.squares.len() == 64 && 0 <= i < moves.len() {
        lemma_ordered_props(b, true);
        assert(legal_mv_ok(b, true, moves[i]));
        lemma_apply_move_count(b, moves[i]);
        lemma_count_nonneg(spec_apply_move(b, moves[i]).squares, 0);
    }
}

/// The alpha-beta node value lies in its window, its leaf count fits the
/// counter, and its line starts with a move of the position, if any.
pub proof fn lemma_alpha_beta_bounds(b: BoardModel, depth_left: int, alpha: int, beta: int, ply: int)
    requires
        b.squares.len() == 64,
        depth_left >= 0,
        alpha <= beta,
    ensures
        ({
            let outcome = spec_alpha_beta(b, depth_left, alpha, beta, ply);
            alpha <= outcome.score <= beta && 0 <= outcome.evaluations <= u64::MAX && (
            outcome.line.len() > 0 ==> spec_ordered_moves(b, false).contains(outcome.line[0]))
        }),
    decreases depth_left, count_pieces(b.squares), 3int, 0int,
{
    let moves = spec_ordered_moves(b, false);
    if depth_left == 0 || moves.len() == 0 {
        lemma_quiescence_bounds(b, alpha, beta, ply);
    } else {
        lemma_ab_loop_bounds(b, depth_left, 0, alpha, beta, ply, Seq::empty(), 0);
    }
}

proof fn lemma_ab_loop_bounds(
    b: BoardModel,
    depth_left: int,
    i: int,
    alpha: int,
    beta: int,
    ply: int,
    best: Seq<Move>,
    evals: int,
)
    requires
        b.squares.len() == 64,
        depth_left >= 1,
        0 <= i,
        alpha <= beta,
        0 <= evals <= u64::MAX,
        best.len() > 0 ==> spec_ordered_moves(b, false).contains(best[0]),
    ensures
        ({
            let outcome = ab_loop(b, depth_left, i, alpha, beta, ply, best, evals);
            alpha <= outcome.score <= beta && 0 <= outcome.evaluations <= u64::MAX && (
            outcome.line.len() > 0 ==> spec_ordered_moves(b, false).contains(outcome.line[0]))
        }),
    decreases depth_left, count_pieces(b.squares), 2int, spec_ordered_moves(b, false).len() - i,
{
    let moves = spec_ordered_moves(b, false);
    if i < moves.len() {
        lemma_ordered_props(b, false);
        assert(legal_mv_ok(b, false, moves[i]));
        lemma_apply_move_count(b, moves[i]);
        lemma_count_nonneg(spec_apply_move(b, moves[i]).squares, 0);
        let nb = spec_apply_move(b, moves[i]);
        lemma_alpha_beta_bounds(nb, depth_left - 1, -beta, -alpha, ply + 1);
        let child = spec_alpha_beta(nb, depth_left - 1, -beta, -alpha, ply + 1);
        let score = -child.score;
        let evals2 = sat_add(evals, child.evaluations);
        if score >= beta {
        } else if score > alpha {
            assert(moves.contains(moves[i]));
            lemma_ab_loop_bounds(
                b,
                depth_left,
                i + 1,
                score,
                beta,
                ply,
                seq![moves[i]] + child.line,
                evals2,
            );
        } else {
            lemma_ab_loop_bounds(b, depth_left, i + 1, alpha, beta, ply, best, evals2);
        }
    }
}

/// The quiescence node value lies in its window, evaluates at least one
/// leaf, and contributes no line.
pub proof fn lemma_quiescence_bounds(b: BoardModel, alpha: int, beta: int, ply: int)
    requires
        b.squares.len() == 64,
        alpha <= beta,
    ensures
        ({
            let outcome = spec_quiescence(b, alpha, beta, ply);
            alpha <= outcome.score <= beta && 1 <= outcome.evaluations <= u64::MAX
                && outcome.line == Seq::<Move>::empty()
        }),
    decreases 0int, count_pieces(b.squares), 2int, 0int,
{
    let eval = spec_evaluate(b, ply);
    if eval < beta {
        let alpha2 = if eval > alpha {
            eval
        } else {
            alpha
        };
        lemma_quiesce_loop_bounds(b, 0, alpha2, beta, ply, 1);
    }
}

proof fn lemma_quiesce_loop_bounds(
    b: BoardModel,
    i: int,
    alpha: int,
    beta: int,
    ply: int,
    evals: int,
)
    requires
        b.squares.len() == 64,
        0 <= i,
        alpha <= beta,
        1 <= evals <= u64::MAX,
    ensures
        ({
            let outcome = quiesce_loop(b, i, alpha, beta, ply, evals);
            alpha <= outcome.score <= beta && 1 <= outcome.evaluations <= u64::MAX
                && outcome.line == Seq::<Move>::empty()
        }),
    decreases 0int, count_pieces(b.squares), 1int, spec_ordered_moves(b, true).len() - i,
{
    let moves = spec_ordered_moves(b, true);
    if i < moves.len() {
        lemma_ordered_props(b, true);
        assert(legal_mv_ok(b, true, moves[i]));
        lemma_apply_move_count(b, moves[i]);
        lemma_count_nonneg(spec_apply_move(b, moves[i]).squares, 0);
        let nb = spec_apply_move(b, moves[i]);
        lemma_quiescence_bounds(nb, -beta, -alpha, ply + 1);
        let child = spec_quiescence(nb, -beta, -alpha, ply + 1);
        let score = -child.score;
        let evals2 = sat_add(evals, child.evaluations);
        if score < beta {
            let alpha2 = if score > alpha {
                score
            } else {
                alpha
            };
            lemma_quiesce_loop_bounds(b, i + 1, alpha2, beta, ply, evals2);
        }
    }
}

fn clone_moves(moves: &Vec<Move>) -> (r: Vec<Move>)
    ensures
        r@ == moves@,
{
    let mut result: Vec<Move> = Vec::new();
    let moves_len = moves.len();
    for i in 0..moves_len
        invariant
            moves_len == moves@.len(),
            result@ == moves@.take(i as int),
    {
        result.push(moves[i]);
    }
    proof {
        assert(moves@.take(moves@.len() as int) =~= moves@);
    }
    result
}

impl SearchResult {
    pub fn new(score: i32, evaluations: u64) -> (r: SearchResult)
        ensures
            r.score == score,
            r.evaluations == evaluations,
            r.moves@ == Seq::<Move>::empty(),
    {
        SearchResult { score, moves: Vec::new(), evaluations }
    }

    /// The same report seen from the parent node: the score negated.
    pub fn flip(&self) -> (r: Self)
        requires
            self.score > i32::MIN,
        ensures
            r.score as int == -(self.score as int),
            r.moves@ == self.moves@,
            r.evaluations == self.evaluations,
    {
        SearchResult {
            score: -self.score,
            moves: clone_moves(&self.moves),
            evaluations: self.evaluations,
        }
    }

    /// The same report with the evaluated-leaf count replaced.
    pub fn with_evaluation_count(self, evaluations: u64) -> (r: SearchResult)
        ensures
            r.score == self.score,
            r.moves@ == self.moves@,
            r.evaluations == evaluations,
    {
        SearchResult { evaluations, ..self }
    }
}

impl SearchState {
    /// The root node: the full window, the given depth budget, ply zero.
    pub fn initial(board: Board, depth: u8) -> (r: SearchState)
        requires
            depth <= 127,
        ensures
            r.board == board,
            r.alpha == i32::MIN + 1,
            r.beta == i32::MAX - 1,
            r.depth_left as int == depth as int,
            r.current_depth == 0,
    {
        SearchState {
            board,
            alpha: i32::MIN + 1,
            beta: i32::MAX - 1,
            depth_left: depth as i8,
            current_depth: 0,
        }
    }

    /// The child node after `mv`: the window negated and swapped, one less
    /// depth (never below zero), one more ply.
    pub fn make_move(&self, mv: &Move) -> (r: SearchState)
        requires
            mv.from < 64,
            mv.to < 64,
            self.alpha > i32::MIN,
            self.beta > i32::MIN,
            self.current_depth < u32::MAX,
        ensures
            r.board@ == spec_apply_move(self.board@, *mv),
            r.alpha as int == -(self.beta as int),
            r.beta as int == -(self.alpha as int),
            r.depth_left as int == if self.depth_left > 0 {
                self.depth_left as int - 1
            } else {
                0
            },
            r.current_depth == self.current_depth + 1,
    {
        SearchState {
            alpha: -self.beta,
            beta: -self.alpha,
            depth_left: if self.depth_left > 0 {
                self.depth_left - 1
            } else {
                0
            },
            board: self.board.make_move(mv),
            current_depth: self.current_depth + 1,
        }
    }
}

/// The move the iterative-deepening search settles on: the head of the
/// deepest principal variation, or the first legal move when no line was
/// ever recorded.
pub open spec fn spec_search_move(b: BoardModel) -> Move {
    let outcome = spec_alpha_beta(b, 3, i32::MIN + 1, i32::MAX - 1, 0);
    if outcome.line.len() > 0 {
        outcome.line[0]
    } else {
        spec_legal_moves(b, false)[0]
    }
}

impl Engine {
    /// The best move of the current position by iterative deepening: the
    /// alpha-beta search runs at depths 1, 2 and 3, and the deepest
    /// completed principal variation decides. The result is always a
    /// legal move of the position.
    pub fn search(&self) -> (r: Move)
        requires
            spec_legal_moves(self.board@, false).len() > 0,
        ensures
            r == spec_search_move(self.board@),
            spec_legal_moves(self.board@, false).contains(r),
    {
        proof {
            lemma_count_nonneg(self.board@.squares, 0);
            lemma_count_le(self.board@.squares, 0);
        }
        let mut result = SearchResult::new(0, 0);
        for i in 1..4u8
            invariant
                i >= 2 ==> ({
                    let outcome = spec_alpha_beta(
                        self.board@,
                        i as int - 1,
                        i32::MIN + 1,
                        i32::MAX - 1,
                        0,
                    );
                    result.score as int == outcome.score && result.moves@ == outcome.line
                        && result.evaluations as int == outcome.evaluations
                }),
        {
            proof {
                lemma_count_nonneg(self.board@.squares, 0);
                lemma_count_le(self.board@.squares, 0);
            }
            let state = SearchState::initial(self.board, i);
            result = self.search_req(state);
        }
        let ghost outcome = spec_alpha_beta(self.board@, 3, i32::MIN + 1, i32::MAX - 1, 0);
        if result.moves.len() > 0 {
            let mv = result.moves[0];
            proof {
                lemma_alpha_beta_bounds(self.board@, 3, i32::MIN + 1, i32::MAX - 1, 0);
                lemma_ordered_props(self.board@, false);
                let ordered = spec_ordered_moves(self.board@, false);
                assert(ordered.contains(outcome.line[0]));
                let k = choose|k: int| 0 <= k < ordered.len() && ordered[k] == outcome.line[0];
                assert(spec_legal_moves(self.board@, false).contains(ordered[k]));
            }
            mv
        } else {
            let legal = self.board.gen_moves(false);
            let mv = legal[0];
            proof {
                assert(spec_legal_moves(self.board@, false).contains(mv));
            }
            mv
        }
    }

    #[verifier::loop_isolation(false)]
    pub fn search_req(&self, state: SearchState) -> (r: SearchResult)
        requires
            state.depth_left >= 0,
            state.alpha > i32::MIN,
            state.beta > i32::MIN,
            state.alpha <= state.beta,
            state.current_depth as int + state.depth_left as int + count_pieces(
                state.board@.squares,
            ) <= 0x1000_0000,
        ensures
            ({
                let outcome = spec_alpha_beta(
                    state.board@,
                    state.depth_left as int,
                    state.alpha as int,
                    state.beta as int,
                    state.current_depth as int,
                );
                r.score as int == outcome.score && r.moves@ == outcome.line && r.evaluations
                    as int == outcome.evaluations
            }),
        decreases state.depth_left as int, count_pieces(state.board@.squares), 3int, 0int,
{
        proof {
            lemma_count_nonneg(state.board@.squares, 0);
        }
        let legal = state.board.gen_moves(false);
        let moves = state.board.order(&legal);
        proof {
            lemma_ordered_props(state.board@, false);
            assert(moves@ == spec_ordered_moves(state.board@, false));
            assert forall|k: int| 0 <= k < moves@.len() implies legal_mv_ok(
                state.board@,
                false,
                #[trigger] moves@[k],
            ) by {
                assert(legal_mv_ok(state.board@, false, spec_ordered_moves(state.board@, false)[k]));
            }
        }
        if state.depth_left == 0 || moves.is_empty() {
            return self.quiescence(state);
        }
        let ghost st0 = state;
        let ghost b = state.board@;
        let mut state = state;
        let mut best_line: Vec<Move> = Vec::new();
        let mut counter: u64 = 0;
        let moves_len = moves.len();
        for idx in 0..moves_len
            invariant
                moves_len == moves@.len(),
                moves@ == spec_ordered_moves(b, false),
                moves@.len() > 0,
                forall|k: int|
                    0 <= k < moves@.len() ==> legal_mv_ok(b, false, #[trigger] moves@[k]),
                state.board == st0.board,
                b == st0.board@,
                state.beta == st0.beta,
                state.current_depth == st0.current_depth,
                state.depth_left == st0.depth_left,
                st0.depth_left >= 1,
                state.alpha > i32::MIN,
                state.alpha <= state.beta,
                st0.alpha <= state.alpha,
                st0.current_depth as int + st0.depth_left as int + count_pieces(b.squares)
                    <= 0x1000_0000,
                spec_alpha_beta(
                    b,
                    st0.depth_left as int,
                    st0.alpha as int,
                    st0.beta as int,
                    st0.current_depth as int,
                ) == ab_loop(
                    b,
                    st0.depth_left as int,
                    idx as int,
                    state.alpha as int,
                    st0.beta as int,
                    st0.current_depth as int,
                    best_line@,
                    counter as int,
                ),
        {
            let mv = moves[idx];
            assert(legal_mv_ok(b, false, mv));
            proof {
                lemma_apply_move_count(b, mv);
                lemma_count_nonneg(spec_apply_move(b, mv).squares, 0);
            }
            let child_state = state.make_move(&mv);
            proof {
                lemma_alpha_beta_bounds(
                    child_state.board@,
                    child_state.depth_left as int,
                    child_state.alpha as int,
                    child_state.beta as int,
                    child_state.current_depth as int,
                );
            }
            let move_result = self.search_req(child_state).flip();
            counter = counter.saturating_add(move_result.evaluations);
            if move_result.score >= state.beta {
                return SearchResult::new(state.beta, counter);
            }
            if move_result.score > state.alpha {
                state.alpha = move_result.score;
                let ghost child_line = move_result.moves@;
                best_line = move_result.moves;
                best_line.insert(0, mv);
                proof {
                    assert(best_line@ =~= seq![mv] + child_line);
                }
            }
        }
        SearchResult { score: state.alpha, moves: best_line, evaluations: counter }
    }

    #[verifier::loop_isolation(false)]
    fn quiescence(&self, state: SearchState) -> (r: SearchResult)
        requires
            state.alpha > i32::MIN,
            state.beta > i32::MIN,
            state.alpha <= state.beta,
            state.current_depth as int + count_pieces(state.board@.squares) <= 0x1000_0000,
        ensures
            ({
                let outcome = spec_quiescence(
                    state.board@,
                    state.alpha as int,
                    state.beta as int,
                    state.current_depth as int,
                );
                r.score as int == outcome.score && r.moves@ == outcome.line && r.evaluations
                    as int == outcome.evaluations
            }),
        decreases 0int, count_pieces(state.board@.squares), 2int, 0int,
    {
        proof {
            lemma_count_nonneg(state.board@.squares, 0);
        }
        let eval = state.board.evaluate(state.current_depth);
        if eval >= state.beta {
            return SearchResult::new(state.beta, 1);
        }
        let ghost st0 = state;
        let ghost b = state.board@;
        let mut state = state;
        if eval > state.alpha {
            state.alpha = eval;
        }
        let legal_captures = state.board.gen_moves(true);
        let moves = state.board.order(&legal_captures);
        proof {
            lemma_ordered_props(b, true);
            assert(moves@ == spec_ordered_moves(b, true));
            assert forall|k: int| 0 <= k < moves@.len() implies legal_mv_ok(
                b,
                true,
                #[trigger] moves@[k],
            ) by {
                assert(legal_mv_ok(b, true, spec_ordered_moves(b, true)[k]));
            }
        }
        let mut counter: u64 = 1;
        let moves_len = moves.len();
        for idx in 0..moves_len
            invariant
                moves_len == moves@.len(),
                moves@ == spec_ordered_moves(b, true),
                forall|k: int|
                    0 <= k < moves@.len() ==> legal_mv_ok(b, true, #[trigger] moves@[k]),
                state.board == st0.board,
                b == st0.board@,
                state.beta == st0.beta,
                state.current_depth == st0.current_depth,
                state.alpha > i32::MIN,
                state.alpha <= state.beta,
                counter >= 1,
                st0.current_depth as int + count_pieces(b.squares) <= 0x1000_0000,
                spec_quiescence(
                    b,
                    st0.alpha as int,
                    st0.beta as int,
                    st0.current_depth as int,
                ) == quiesce_loop(
                    b,
                    idx as int,
                    state.alpha as int,
                    st0.beta as int,
                    st0.current_depth as int,
                    counter as int,
                ),
        {
            let mv = moves[idx];
            assert(legal_mv_ok(b, true, mv));
            proof {
                lemma_apply_move_count(b, mv);
                lemma_count_nonneg(spec_apply_move(b, mv).squares, 0);
            }
            let child_state = state.make_move(&mv);
            proof {
                lemma_quiescence_bounds(
                    child_state.board@,
                    child_state.alpha as int,
                    child_state.beta as int,
                    child_state.current_depth as int,
                );
            }
            let move_result = self.quiescence(child_state).flip();
            counter = counter.saturating_add(move_result.evaluations);
            if move_result.score >= state.beta {
                return SearchResult::new(state.beta, counter);
            }
            if move_result.score > state.alpha {
                state.alpha = move_result.score;
            }
        }
        SearchResult::new(state.alpha, counter)
    }
}

/// The effect of a score window on a node value: a value at or above beta
/// reports as beta, one at or below alpha as alpha, one inside as itself.
pub open spec fn clamp_window(v: int, alpha: int, beta: int) -> int {
    if v >= beta {
        beta
    } else if v > alpha {
        v
    } else {
        alpha
    }
}

proof fn lemma_clamp_negate(w: int, alpha: int, beta: int)
    requires
        alpha <= beta,
    ensures
        -clamp_window(w, -beta, -alpha) == clamp_window(-w, alpha, beta),
{
}

/// A sentinel below every attainable score: the base of a best-value fold
/// over a move list.
pub open spec fn no_move_score() -> int {
    (i32::MIN as int) - 1
}

/// The unpruned value of the capture-only extension: the stand-pat
/// evaluation or the best negated child value, whichever is greater.
pub open spec fn spec_minimax_quiesce(b: BoardModel, ply: int) -> int
    decreases 0int, count_pieces(b.squares), 2int, 0int,
        when b.squares.len() == 64
{
    let stand_pat = spec_evaluate(b, ply);
    let best = minimax_quiesce_from(b, 0, ply);
    if stand_pat >= best {
        stand_pat
    } else {
        best
    }
}

/// The best unpruned value among the captures with index at least `i`.
pub open spec fn minimax_quiesce_from(b: BoardModel, i: int, ply: int) -> int
    decreases 0int, count_pieces(b.squares), 1int, spec_ordered_moves(b, true).len() - i,
        when b.squares.len() == 64 && i >= 0
        via minimax_quiesce_from_decreases
{
    let moves = spec_ordered_moves(b, true);
    if i >= moves.len() {
        no_move_score()
    } else {
        let here = -spec_minimax_quiesce(spec_apply_move(b, moves[i]), ply + 1);
        let rest = minimax_quiesce_from(b, i + 1, ply);
        if here >= rest {
            here
        } else {
            rest
        }
    }
}

#[via_fn]
proof fn minimax_quiesce_from_decreases(b: BoardModel, i: int, ply: int) {
    let moves = spec_ordered_moves(b, true);
    if b.squares.len() == 64 && 0 <= i < moves.len() {
        lemma_ordered_props(b, true);
        assert(legal_mv_ok(b, true, moves[i]));
        lemma_apply_move_count(b, moves[i]);
        lemma_count_nonneg(spec_apply_move(b, moves[i]).squares, 0);
    }
}

/// The unpruned fixed-depth negamax value: the best negated child value
/// over every legal move, delegating to the capture extension at the
/// horizon or when no move exists.
pub open spec fn spec_minimax(b: BoardModel, depth_left: int, ply: int) -> int
    decreases depth_left, count_pieces(b.squares), 3int, 0int,
        when b.squares.len() == 64 && depth_left >= 0
{
    let moves = spec_ordered_moves(b, false);
    if depth_left == 0 || moves.len() == 0 {
        spec_minimax_quiesce(b, ply)
    } else {
        minimax_from(b, depth_left, 0, ply)
    }
}

/// The best unpruned value among the legal moves with index at least `i`.
pub open spec fn minimax_from(b: BoardModel, depth_left: int, i: int, ply: int) -> int
    decreases depth_left, count_pieces(b.squares), 2int, spec_ordered_moves(b, false).len() - i,
        when b.squares.len() == 64 && depth_left >= 1 && i >= 0
{
    let moves = spec_ordered_moves(b, false);
    if i >= moves.len() {
        no_move_score()
    } else {
        let here = -spec_minimax(spec_apply_move(b, moves[i]), depth_left - 1, ply + 1);
        let rest = minimax_from(b, depth_left, i + 1, ply);
        if here >= rest {
            here
        } else {
            rest
        }
    }
}

/// Every attainable unpruned value lies between the mate sentinel and its
/// negation, strictly inside the full search window.
proof fn lemma_minimax_quiesce_bounds(b: BoardModel, ply: int)
    requires
        b.squares.len() == 64,
        0 <= ply,
        ply + count_pieces(b.squares) <= 0x1000_0000,
    ensures
        i32::MIN as int + 10 <= spec_minimax_quiesce(b, ply) <= -(i32::MIN as int + 10),
    decreases 0int, count_pieces(b.squares), 2int, 0int,
{
    crate::engine::evaluation::lemma_material_prefix_bounds(b.squares, 64);
    lemma_count_nonneg(b.squares, 0);
    lemma_minimax_quiesce_from_bounds(b, 0, ply);
}

proof fn lemma_minimax_quiesce_from_bounds(b: BoardModel, i: int, ply: int)
    requires
        b.squares.len() == 64,
        0 <= i,
        0 <= ply,
        ply + count_pieces(b.squares) <= 0x1000_0000,
    ensures
        minimax_quiesce_from(b, i, ply) <= -(i32::MIN as int + 10),
        minimax_quiesce_from(b, i, ply) == no_move_score() || minimax_quiesce_from(b, i, ply)
            >= i32::MIN as int + 10,
    decreases 0int, count_pieces(b.squares), 1int, spec_ordered_moves(b, true).len() - i,
{
    let moves = spec_ordered_moves(b, true);
    if i < moves.len() {
        lemma_ordered_props(b, true);
        assert(legal_mv_ok(b, true, moves[i]));
        lemma_apply_move_count(b, moves[i]);
        lemma_count_nonneg(spec_apply_move(b, moves[i]).squares, 0);
        lemma_minimax_quiesce_bounds(spec_apply_move(b, moves[i]), ply + 1);
        lemma_minimax_quiesce_from_bounds(b, i + 1, ply);
    }
}

proof fn lemma_minimax_bounds(b: BoardModel, depth_left: int, ply: int)
    requires
        b.squares.len() == 64,
        0 <= depth_left,
        0 <= ply,
        ply + depth_left + count_pieces(b.squares) <= 0x1000_0000,
    ensures
        i32::MIN as int + 10 <= spec_minimax(b, depth_left, ply) <= -(i32::MIN as int + 10),
    decreases depth_left, count_pieces(b.squares), 3int, 0int,
{
    let moves = spec_ordered_moves(b, false);
    if depth_left == 0 || moves.len() == 0 {
        lemma_minimax_quiesce_bounds(b, ply);
    } else {
        lemma_minimax_from_bounds(b, depth_left, 0, ply);
    }
}

proof fn lemma_minimax_from_bounds(b: BoardModel, depth_left: int, i: int, ply: int)
    requires
        b.squares.len() == 64,
        depth_left >= 1,
        0 <= i,
        0 <= ply,
        ply + depth_left + count_pieces(b.squares) <= 0x1000_0000,
    ensures
        minimax_from(b, depth_left, i, ply) <= -(i32::MIN as int + 10),
        minimax_from(b, depth_left, i, ply) == no_move_score() || minimax_from(b, depth_left, i, ply)
            >= i32::MIN as int + 10,
        i < spec_ordered_moves(b, false).len() ==> minimax_from(b, depth_left, i, ply)
            >= i32::MIN as int + 10,
    decreases depth_left, count_pieces(b.squares), 2int, spec_ordered_moves(b, false).len() - i,
{
    let moves = spec_ordered_moves(b, false);
    if i < moves.len() {
        lemma_ordered_props(b, false);
        assert(legal_mv_ok(b, false, moves[i]));
        lemma_apply_move_count(b, moves[i]);
        lemma_count_nonneg(spec_apply_move(b, moves[i]).squares, 0);
        lemma_minimax_bounds(spec_apply_move(b, moves[i]), depth_left - 1, ply + 1);
        lemma_minimax_from_bounds(b, depth_left, i + 1, ply);
    }
}

/// The quiescence value is the window's clamp of the unpruned value: the
/// stand-pat cutoff and the capture-loop cutoffs discard only values the
/// window already excludes.
proof fn lemma_quiescence_unpruned(b: BoardModel, alpha: int, beta: int, ply: int)
    requires
        b.squares.len() == 64,
        (i32::MIN as int) < alpha <= beta <= (i32::MAX as int),
    ensures
        spec_quiescence(b, alpha, beta, ply).score == clamp_window(
            spec_minimax_quiesce(b, ply),
            alpha,
            beta,
        ),
    decreases 0int, count_pieces(b.squares), 2int, 0int,
{
    let eval = spec_evaluate(b, ply);
    let best = minimax_quiesce_from(b, 0, ply);
    if eval < beta {
        let alpha2 = if eval > alpha {
            eval
        } else {
            alpha
        };
        lemma_quiesce_loop_unpruned(b, 0, alpha2, beta, ply, 1);
    }
}

proof fn lemma_quiesce_loop_unpruned(
    b: BoardModel,
    i: int,
    alpha: int,
    beta: int,
    ply: int,
    evals: int,
)
    requires
        b.squares.len() == 64,
        0 <= i,
        (i32::MIN as int) < alpha <= beta <= (i32::MAX as int),
    ensures
        quiesce_loop(b, i, alpha, beta, ply, evals).score == clamp_window(
            minimax_quiesce_from(b, i, ply),
            alpha,
            beta,
        ),
    decreases 0int, count_pieces(b.squares), 1int, spec_ordered_moves(b, true).len() - i,
{
    let moves = spec_ordered_moves(b, true);
    if i < moves.len() {
        lemma_ordered_props(b, true);
        assert(legal_mv_ok(b, true, moves[i]));
        lemma_apply_move_count(b, moves[i]);
        lemma_count_nonneg(spec_apply_move(b, moves[i]).squares, 0);
        let nb = spec_apply_move(b, moves[i]);
        lemma_quiescence_unpruned(nb, -beta, -alpha, ply + 1);
        let w = spec_minimax_quiesce(nb, ply + 1);
        lemma_clamp_negate(w, alpha, beta);
        let child = spec_quiescence(nb, -beta, -alpha, ply + 1);
        let score = -child.score;
        assert(score == clamp_window(-w, alpha, beta));
        let evals2 = sat_add(evals, child.evaluations);
        if score < beta {
            let alpha2 = if score > alpha {
                score
            } else {
                alpha
            };
            lemma_quiesce_loop_unpruned(b, i + 1, alpha2, beta, ply, evals2);
        }
    }
}

/// The alpha-beta value is the window's clamp of the unpruned negamax
/// value: every beta cutoff discards only moves the window already ruled
/// irrelevant, and every raised alpha is the exact value of some move.
proof fn lemma_alpha_beta_unpruned(
    b: BoardModel,
    depth_left: int,
    alpha: int,
    beta: int,
    ply: int,
)
    requires
        b.squares.len() == 64,
        depth_left >= 0,
        (i32::MIN as int) < alpha <= beta <= (i32::MAX as int),
    ensures
        spec_alpha_beta(b, depth_left, alpha, beta, ply).score == clamp_window(
            spec_minimax(b, depth_left, ply),
            alpha,
            beta,
        ),
    decreases depth_left, count_pieces(b.squares), 3int, 0int,
{
    let moves = spec_ordered_moves(b, false);
    if depth_left == 0 || moves.len() == 0 {
        lemma_quiescence_unpruned(b, alpha, beta, ply);
    } else {
        lemma_ab_loop_unpruned(b, depth_left, 0, alpha, beta, ply, Seq::empty(), 0);
    }
}

proof fn lemma_ab_loop_unpruned(
    b: BoardModel,
    depth_left: int,
    i: int,
    alpha: int,
    beta: int,
    ply: int,
    best: Seq<Move>,
    evals: int,
)
    requires
        b.squares.len() == 64,
        depth_left >= 1,
        0 <= i,
        (i32::MIN as int) < alpha <= beta <= (i32::MAX as int),
    ensures
        ab_loop(b, depth_left, i, alpha, beta, ply, best, evals).score == clamp_window(
            minimax_from(b, depth_left, i, ply),
            alpha,
            beta,
        ),
    decreases depth_left, count_pieces(b.squares), 2int, spec_ordered_moves(b, false).len() - i,
{
    let moves = spec_ordered_moves(b, false);
    if i < moves.len() {
        lemma_ordered_props(b, false);
        assert(legal_mv_ok(b, false, moves[i]));
        lemma_apply_move_count(b, moves[i]);
        lemma_count_nonneg(spec_apply_move(b, moves[i]).squares, 0);
        let nb = spec_apply_move(b, moves[i]);
        lemma_alpha_beta_unpruned(nb, depth_left - 1, -beta, -alpha, ply + 1);
        let w = spec_minimax(nb, depth_left - 1, ply + 1);
        lemma_clamp_negate(w, alpha, beta);
        let child = spec_alpha_beta(nb, depth_left - 1, -beta, -alpha, ply + 1);
        let score = -child.score;
        assert(score == clamp_window(-w, alpha, beta));
        let evals2 = sat_add(evals, child.evaluations);
        if score < beta {
            if score > alpha {
                lemma_ab_loop_unpruned(
                    b,
                    depth_left,
                    i + 1,
                    score,
                    beta,
                    ply,
                    seq![moves[i]] + child.line,
                    evals2,
                );
            } else {
                lemma_ab_loop_unpruned(b, depth_left, i + 1, alpha, beta, ply, best, evals2);
            }
        }
    }
}

/// Alpha-beta pruning never changes the root value: under the full window
/// the alpha-beta score at any depth equals the score of a full, unpruned
/// fixed-depth negamax with the same evaluation and the same capture-only
/// extension at the leaves.
pub proof fn lemma_alpha_beta_equals_minimax(b: BoardModel, depth_left: int, ply: int)
    requires
        b.squares.len() == 64,
        0 <= depth_left,
        0 <= ply,
        ply + depth_left + count_pieces(b.squares) <= 0x1000_0000,
    ensures
        spec_alpha_beta(b, depth_left, i32::MIN as int + 1, i32::MAX as int - 1, ply).score
            == spec_minimax(b, depth_left, ply),
{
    lemma_alpha_beta_unpruned(b, depth_left, i32::MIN as int + 1, i32::MAX as int - 1, ply);
    lemma_minimax_bounds(b, depth_left, ply);
}

} // verus!
