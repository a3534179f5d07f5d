//! The move generator: pseudo-legal enumeration per piece kind, and the
//! legality filter that rejects moves leaving the mover's own king attacked.
//!
//! Every executable function returns exactly the move sequence of its spec
//! mirror, so the legal-move set of a position is pinned down completely.

use vstd::prelude::*;
use crate::model::pieces::{Piece, NONE, KING, PAWN, KNIGHT, BISHOP, ROOK, QUEEN, WHITE, BLACK};
use crate::model::{Board, BoardModel, Move, spec_active_color, spec_inactive_color, spec_apply_move};

verus! {

/// Whether the piece on square `i` belongs to the side to move.
pub open spec fn active_at(b: BoardModel, i: int) -> bool {
    b.squares[i] & spec_active_color(b) > 0
}

/// Whether the piece on square `i` belongs to the side not to move.
pub open spec fn inactive_at(b: BoardModel, i: int) -> bool {
    b.squares[i] & spec_inactive_color(b) > 0
}

/// The rank step of movement direction `d` (0 up, 1 down, 2 left, 3 right,
/// then the four diagonals).
pub open spec fn dir_rank_step(d: int) -> int {
    if d == 0 {
        -1
    } else if d == 1 {
        1
    } else if d == 2 {
        0
    } else if d == 3 {
        0
    } else if d == 4 {
        -1
    } else if d == 5 {
        -1
    } else if d == 6 {
        1
    } else {
        1
    }
}

/// The file step of movement direction `d`.
pub open spec fn dir_file_step(d: int) -> int {
    if d == 0 {
        0
    } else if d == 1 {
        0
    } else if d == 2 {
        -1
    } else if d == 3 {
        1
    } else if d == 4 {
        -1
    } else if d == 5 {
        1
    } else if d == 6 {
        -1
    } else {
        1
    }
}

/// The square-index offset of one step in direction `d`.
pub open spec fn dir_offset(d: int) -> int {
    8 * dir_rank_step(d) + dir_file_step(d)
}

/// How many steps in direction `d` stay on the board from square `pos`.
pub open spec fn edge_distance(pos: int, d: int) -> int {
    let rank_room = if dir_rank_step(d) < 0 {
        pos / 8
    } else if dir_rank_step(d) > 0 {
        7 - pos / 8
    } else {
        7
    };
    let file_room = if dir_file_step(d) < 0 {
        pos % 8
    } else if dir_file_step(d) > 0 {
        7 - pos % 8
    } else {
        7
    };
    if rank_room <= file_room {
        rank_room
    } else {
        file_room
    }
}

/// A step in direction `d` from a square keeps the index on the board and
/// moves rank and file by the direction's steps.
proof fn lemma_dir_step(pos: int, d: int)
    requires
        0 <= pos < 64,
        0 <= d < 8,
        edge_distance(pos, d) > 0,
    ensures
        0 <= pos + dir_offset(d) < 64,
        (pos + dir_offset(d)) / 8 == pos / 8 + dir_rank_step(d),
        (pos + dir_offset(d)) % 8 == pos % 8 + dir_file_step(d),
        edge_distance(pos + dir_offset(d), d) == edge_distance(pos, d) - 1,
{
    let r = pos / 8;
    let f = pos % 8;
    assert(pos == 8 * r + f);
    let r2 = r + dir_rank_step(d);
    let f2 = f + dir_file_step(d);
    assert(0 <= r2 < 8 && 0 <= f2 < 8);
    assert(pos + dir_offset(d) == 8 * r2 + f2);
    assert((8 * r2 + f2) / 8 == r2 && (8 * r2 + f2) % 8 == f2) by (nonlinear_arith)
        requires
            0 <= r2 < 8 && 0 <= f2 < 8,
    ;
}

/// The moves of a sliding piece in one direction, walking outward from
/// `dist` steps: stop before a friendly piece, include the first enemy
/// square as a capture and stop, otherwise continue to the edge bound.
pub open spec fn slide_in_dir(b: BoardModel, pos: int, d: int, dist: int) -> Seq<Move>
    decreases edge_distance(pos, d) + 1 - dist,
{
    if dist < 1 || dist > edge_distance(pos, d) {
        Seq::empty()
    } else {
        let to = pos + dir_offset(d) * dist;
        if b.squares[to] & spec_active_color(b) > 0 {
            Seq::empty()
        } else if b.squares[to] & spec_inactive_color(b) > 0 {
            seq![Move { from: pos as usize, to: to as usize, promote_to: None, castle: false }]
        } else {
            seq![Move { from: pos as usize, to: to as usize, promote_to: None, castle: false }]
                + slide_in_dir(b, pos, d, dist + 1)
        }
    }
}

/// The sliding moves over the directions in `[d, d_hi)`.
pub open spec fn slide_dirs(b: BoardModel, pos: int, d: int, d_hi: int) -> Seq<Move>
    decreases d_hi - d,
{
    if d < 0 || d >= d_hi {
        Seq::empty()
    } else {
        slide_in_dir(b, pos, d, 1) + slide_dirs(b, pos, d + 1, d_hi)
    }
}

/// The shape every generated move shares: it starts on `pos` and lands on
/// a different square of the board.
pub open spec fn mv_shape(mv: Move, pos: int) -> bool {
    mv.from == pos && 0 <= mv.to < 64 && mv.to != pos && !mv.castle
}

/// Every move of the sequence has the common shape for source square `pos`.
pub open spec fn all_mv_shape(s: Seq<Move>, pos: int) -> bool {
    forall|i: int| 0 <= i < s.len() ==> mv_shape(#[trigger] s[i], pos)
}

/// Each sliding destination stays on the board; each move starts at `pos`.
proof fn lemma_slide_in_dir_range(b: BoardModel, pos: int, d: int, dist: int)
    requires
        0 <= pos < 64,
        0 <= d < 8,
        1 <= dist,
        dist <= edge_distance(pos, d) + 1,
        0 <= pos + dir_offset(d) * (dist - 1) < 64,
        edge_distance(pos + dir_offset(d) * (dist - 1), d) == edge_distance(pos, d) - (dist - 1),
    ensures
        all_mv_shape(slide_in_dir(b, pos, d, dist), pos),
    decreases edge_distance(pos, d) + 1 - dist,
{
    if dist <= edge_distance(pos, d) {
        let prev = pos + dir_offset(d) * (dist - 1);
        assert(dir_offset(d) * dist == dir_offset(d) * (dist - 1) + dir_offset(d)) by (nonlinear_arith);
        lemma_dir_step(prev, d);
        let to = pos + dir_offset(d) * dist;
        assert(to == prev + dir_offset(d));
        assert(0 <= to < 64);
        assert(to != pos) by {
            assert(edge_distance(to, d) == edge_distance(pos, d) - dist);
        }
        lemma_slide_in_dir_range(b, pos, d, dist + 1);
    }
}

/// The rank step of the knight jump with index `k`.
pub open spec fn knight_rank_step(k: int) -> int {
    if k == 0 {
        -2
    } else if k == 1 {
        -2
    } else if k == 2 {
        -1
    } else if k == 3 {
        -1
    } else if k == 4 {
        1
    } else if k == 5 {
        1
    } else if k == 6 {
        2
    } else {
        2
    }
}

/// The file step of the knight jump with index `k`.
pub open spec fn knight_file_step(k: int) -> int {
    if k == 0 {
        -1
    } else if k == 1 {
        1
    } else if k == 2 {
        -2
    } else if k == 3 {
        2
    } else if k == 4 {
        -2
    } else if k == 5 {
        2
    } else if k == 6 {
        -1
    } else {
        1
    }
}

/// The knight moves from `pos` over the jumps with index at least `k`:
/// every on-board jump target not occupied by a friendly piece.
pub open spec fn knight_moves_from(b: BoardModel, pos: int, k: int) -> Seq<Move>
    decreases 8 - k,
{
    if k < 0 || k >= 8 {
        Seq::empty()
    } else {
        let r2 = pos / 8 + knight_rank_step(k);
        let f2 = pos % 8 + knight_file_step(k);
        let rest = knight_moves_from(b, pos, k + 1);
        if 0 <= r2 < 8 && 0 <= f2 < 8 && !(b.squares[8 * r2 + f2] & spec_active_color(b) > 0) {
            seq![
                Move {
                    from: pos as usize,
                    to: (8 * r2 + f2) as usize,
                    promote_to: None,
                    castle: false,
                },
            ] + rest
        } else {
            rest
        }
    }
}

/// The single-step king moves from `pos` over the directions at least `d`.
pub open spec fn king_steps_from(b: BoardModel, pos: int, d: int) -> Seq<Move>
    decreases 8 - d,
{
    if d < 0 || d >= 8 {
        Seq::empty()
    } else {
        let to = pos + dir_offset(d);
        let rest = king_steps_from(b, pos, d + 1);
        if edge_distance(pos, d) > 0 && !(b.squares[to] & spec_active_color(b) > 0) {
            seq![Move { from: pos as usize, to: to as usize, promote_to: None, castle: false }]
                + rest
        } else {
            rest
        }
    }
}

/// The castling moves the side to move may attempt: the corresponding
/// right is set and every square strictly between king and rook is empty.
pub open spec fn castle_moves(b: BoardModel) -> Seq<Move> {
    let wk: Seq<Move> = if spec_active_color(b) == WHITE && b.castle_white_king
        && b.squares[61] == NONE && b.squares[62] == NONE {
        seq![Move { from: 60, to: 62, promote_to: None, castle: true }]
    } else {
        Seq::empty()
    };
    let wq: Seq<Move> = if spec_active_color(b) == WHITE && b.castle_white_queen
        && b.squares[57] == NONE && b.squares[58] == NONE && b.squares[59] == NONE {
        seq![Move { from: 60, to: 58, promote_to: None, castle: true }]
    } else {
        Seq::empty()
    };
    let bk: Seq<Move> = if spec_active_color(b) == BLACK && b.castle_black_king
        && b.squares[5] == NONE && b.squares[6] == NONE {
        seq![Move { from: 4, to: 6, promote_to: None, castle: true }]
    } else {
        Seq::empty()
    };
    let bq: Seq<Move> = if spec_active_color(b) == BLACK && b.castle_black_queen
        && b.squares[1] == NONE && b.squares[2] == NONE && b.squares[3] == NONE {
        seq![Move { from: 4, to: 2, promote_to: None, castle: true }]
    } else {
        Seq::empty()
    };
    wk + wq + bk + bq
}

/// All king moves: the single steps followed by the castling attempts.
pub open spec fn spec_king_moves(b: BoardModel, pos: int) -> Seq<Move> {
    king_steps_from(b, pos, 0) + castle_moves(b)
}

/// The four promotion variants of a pawn move, in the fixed order queen,
/// rook, knight, bishop.
pub open spec fn spec_promotions(from: int, to: int) -> Seq<Move> {
    seq![
        Move { from: from as usize, to: to as usize, promote_to: Some(QUEEN), castle: false },
        Move { from: from as usize, to: to as usize, promote_to: Some(ROOK), castle: false },
        Move { from: from as usize, to: to as usize, promote_to: Some(KNIGHT), castle: false },
        Move { from: from as usize, to: to as usize, promote_to: Some(BISHOP), castle: false },
    ]
}

/// A pawn step or promotion burst onto `to`: a move to the back rank
/// expands into the four promotion variants.
pub open spec fn pawn_step(pos: int, to: int, promo: bool) -> Seq<Move> {
    if promo {
        spec_promotions(pos, to)
    } else {
        seq![Move { from: pos as usize, to: to as usize, promote_to: None, castle: false }]
    }
}

/// The pawn moves from `pos`: single push onto an empty square, double
/// push from the home rank behind an empty single-push square, diagonal
/// captures onto enemy pieces or the en-passant target, each expanded to
/// promotions on the back rank. A pawn standing on its own back rank (not
/// reachable by play) yields no moves.
pub open spec fn spec_pawn_moves(b: BoardModel, pos: int) -> Seq<Move> {
    let white = spec_active_color(b) == WHITE;
    if (white && pos < 8) || (!white && pos >= 56) {
        Seq::empty()
    } else {
        let fwd = if white {
            pos - 8
        } else {
            pos + 8
        };
        let rank = fwd / 8;
        let promo = rank == 0 || rank == 7;
        let single: Seq<Move> = if b.squares[fwd] == NONE {
            pawn_step(pos, fwd, promo)
        } else {
            Seq::empty()
        };
        let fwd2 = if white {
            fwd - 8
        } else {
            fwd + 8
        };
        let double_ok = (rank == 2 && !white) || (rank == 5 && white);
        let double: Seq<Move> = if double_ok && single.len() > 0 && b.squares[fwd2] == NONE {
            seq![Move { from: pos as usize, to: fwd2 as usize, promote_to: None, castle: false }]
        } else {
            Seq::empty()
        };
        let left: Seq<Move> = if pos % 8 != 0 && (b.squares[fwd - 1] & spec_inactive_color(b) > 0
            || b.en_passant == Some((fwd - 1) as usize)) {
            pawn_step(pos, fwd - 1, promo)
        } else {
            Seq::empty()
        };
        let right: Seq<Move> = if pos % 8 != 7 && (b.squares[fwd + 1] & spec_inactive_color(b) > 0
            || b.en_passant == Some((fwd + 1) as usize)) {
            pawn_step(pos, fwd + 1, promo)
        } else {
            Seq::empty()
        };
        single + double + left + right
    }
}

/// The moves of the piece byte `piece` standing on `pos`, dispatched on
/// its kind; a byte encoding no piece kind yields no moves.
pub open spec fn spec_piece_moves(b: BoardModel, piece: u8, pos: int) -> Seq<Move> {
    if piece & 7 == PAWN {
        spec_pawn_moves(b, pos)
    } else if piece & 7 == KING {
        spec_king_moves(b, pos)
    } else if piece & 7 == BISHOP {
        slide_dirs(b, pos, 4, 8)
    } else if piece & 7 == ROOK {
        slide_dirs(b, pos, 0, 4)
    } else if piece & 7 == QUEEN {
        slide_dirs(b, pos, 0, 8)
    } else if piece & 7 == KNIGHT {
        knight_moves_from(b, pos, 0)
    } else {
        Seq::empty()
    }
}

/// The pseudo-legal moves of the side to move, gathered over the squares
/// with index at least `pos`.
pub open spec fn pseudo_from(b: BoardModel, pos: int) -> Seq<Move>
    decreases 64 - pos,
{
    if pos < 0 || pos >= 64 {
        Seq::empty()
    } else {
        let here: Seq<Move> = if active_at(b, pos) {
            spec_piece_moves(b, b.squares[pos], pos)
        } else {
            Seq::empty()
        };
        here + pseudo_from(b, pos + 1)
    }
}

/// Every geometrically valid move of the side to move, ignoring whether it
/// leaves the mover's own king attacked.
pub open spec fn spec_pseudo_moves(b: BoardModel) -> Seq<Move> {
    pseudo_from(b, 0)
}

/// The rank and file steps of movement direction `d`.
fn dir_steps(d: usize) -> (r: (i64, i64))
    requires
        d < 8,
    ensures
        r.0 as int == dir_rank_step(d as int),
        r.1 as int == dir_file_step(d as int),
{
    if d == 0 {
        (-1, 0)
    } else if d == 1 {
        (1, 0)
    } else if d == 2 {
        (0, -1)
    } else if d == 3 {
        (0, 1)
    } else if d == 4 {
        (-1, -1)
    } else if d == 5 {
        (-1, 1)
    } else if d == 6 {
        (1, -1)
    } else {
        (1, 1)
    }
}

/// The rank and file steps of the knight jump with index `k`.
fn knight_steps(k: usize) -> (r: (i64, i64))
    requires
        k < 8,
    ensures
        r.0 as int == knight_rank_step(k as int),
        r.1 as int == knight_file_step(k as int),
{
    if k == 0 {
        (-2, -1)
    } else if k == 1 {
        (-2, 1)
    } else if k == 2 {
        (-1, -2)
    } else if k == 3 {
        (-1, 2)
    } else if k == 4 {
        (1, -2)
    } else if k == 5 {
        (1, 2)
    } else if k == 6 {
        (2, -1)
    } else {
        (2, 1)
    }
}

/// How many steps in direction `d` stay on the board from `pos`.
fn edge_distance_at(pos: usize, d: usize) -> (r: usize)
    requires
        pos < 64,
        d < 8,
    ensures
        r as int == edge_distance(pos as int, d as int),
{
    let rank = pos / 8;
    let file = pos % 8;
    let (rank_step, file_step) = dir_steps(d);
    let rank_room = if rank_step < 0 {
        rank
    } else if rank_step > 0 {
        7 - rank
    } else {
        7
    };
    let file_room = if file_step < 0 {
        file
    } else if file_step > 0 {
        7 - file
    } else {
        7
    };
    if rank_room <= file_room {
        rank_room
    } else {
        file_room
    }
}

impl Board {
    fn knight_moves(&self, pos: usize) -> (r: Vec<Move>)
        requires
            pos < 64,
        ensures
            r@ == knight_moves_from(self@, pos as int, 0),
    {
        let mut result: Vec<Move> = Vec::new();
        let active_color = self.active_color();
        let rank = (pos / 8) as i64;
        let file = (pos % 8) as i64;
        for k in 0..8usize
            invariant
                pos < 64,
                rank == pos as int / 8,
                file == pos as int % 8,
                active_color == spec_active_color(self@),
                knight_moves_from(self@, pos as int, 0) == result@ + knight_moves_from(
                    self@,
                    pos as int,
                    k as int,
                ),
        {
            let (rank_step, file_step) = knight_steps(k);
            let r2 = rank + rank_step;
            let f2 = file + file_step;
            if 0 <= r2 && r2 < 8 && 0 <= f2 && f2 < 8 {
                let to = (8 * r2 + f2) as usize;
                if !self.squares[to].is_color(active_color) {
                    result.push(Move::regular(pos, to));
                }
            }
        }
        proof {
            assert(result@ =~= knight_moves_from(self@, pos as int, 0));
        }
        result
    }

    fn sliding_moves(&self, pos: usize, directions: core::ops::Range<usize>) -> (r: Vec<Move>)
        requires
            pos < 64,
            directions.end <= 8,
        ensures
            r@ == slide_dirs(self@, pos as int, directions.start as int, directions.end as int),
    {
        let mut result: Vec<Move> = Vec::new();
        let active_color = self.active_color();
        let inactive_color = self.inactive_color();
        let d_lo = directions.start;
        let d_hi = directions.end;
        if d_lo >= d_hi {
            return result;
        }
        let ghost total = slide_dirs(self@, pos as int, d_lo as int, d_hi as int);
        let mut d = d_lo;
        while d < d_hi
            invariant
                pos < 64,
                d_lo <= d <= d_hi <= 8,
                active_color == spec_active_color(self@),
                inactive_color == spec_inactive_color(self@),
                total == slide_dirs(self@, pos as int, d_lo as int, d_hi as int),
                total == result@ + slide_dirs(self@, pos as int, d as int, d_hi as int),
            decreases d_hi - d,
        {
            let edge = edge_distance_at(pos, d);
            let (rank_step, file_step) = dir_steps(d);
            let step: i64 = 8 * rank_step + file_step;
            let mut cur: i64 = pos as i64;
            let mut dist: usize = 1;
            assert(slide_dirs(self@, pos as int, d as int, d_hi as int) == slide_in_dir(
                self@,
                pos as int,
                d as int,
                1,
            ) + slide_dirs(self@, pos as int, d as int + 1, d_hi as int));
            while dist <= edge
                invariant_except_break
                    pos < 64,
                    d < 8,
                    1 <= dist <= edge + 1,
                    edge as int == edge_distance(pos as int, d as int),
                    step == dir_offset(d as int),
                    active_color == spec_active_color(self@),
                    inactive_color == spec_inactive_color(self@),
                    cur == pos as int + dir_offset(d as int) * (dist as int - 1),
                    0 <= cur < 64,
                    edge_distance(cur as int, d as int) == edge as int - (dist as int - 1),
                    total == result@ + slide_in_dir(self@, pos as int, d as int, dist as int)
                        + slide_dirs(self@, pos as int, d as int + 1, d_hi as int),
                ensures
                    total == result@ + slide_dirs(self@, pos as int, d as int + 1, d_hi as int),
                decreases edge + 1 - dist,
            {
                proof {
                    lemma_dir_step(cur as int, d as int);
                    assert(dir_offset(d as int) * (dist as int) == dir_offset(d as int) * (dist
                        as int - 1) + dir_offset(d as int)) by (nonlinear_arith);
                }
                cur = cur + step;
                let to = cur as usize;
                if self.squares[to].is_color(active_color) {
                    break;
                }
                result.push(Move::regular(pos, to));
                if self.squares[to].is_color(inactive_color) {
                    break;
                }
                dist = dist + 1;
            }
            d = d + 1;
        }
        result
    }

    fn king_moves(&self, pos: usize) -> (r: Vec<Move>)
        requires
            pos < 64,
        ensures
            r@ == spec_king_moves(self@, pos as int),
    {
        let mut result: Vec<Move> = Vec::new();
        let active_color = self.active_color();
        for d in 0..8usize
            invariant
                pos < 64,
                active_color == spec_active_color(self@),
                king_steps_from(self@, pos as int, 0) == result@ + king_steps_from(
                    self@,
                    pos as int,
                    d as int,
                ),
        {
            if edge_distance_at(pos, d) > 0 {
                proof {
                    lemma_dir_step(pos as int, d as int);
                }
                let (rank_step, file_step) = dir_steps(d);
                let to = (pos as i64 + 8 * rank_step + file_step) as usize;
                if !self.squares[to].is_color(active_color) {
                    result.push(Move::regular(pos, to));
                }
            }
        }
        if active_color == WHITE && self.castle_white_king && self.squares[61] == NONE
            && self.squares[62] == NONE {
            result.push(Move::castle(60, 62));
        }
        if active_color == WHITE && self.castle_white_queen && self.squares[57] == NONE
            && self.squares[58] == NONE && self.squares[59] == NONE {
            result.push(Move::castle(60, 58));
        }
        if active_color == BLACK && self.castle_black_king && self.squares[5] == NONE
            && self.squares[6] == NONE {
            result.push(Move::castle(4, 6));
        }
        if active_color == BLACK && self.castle_black_queen && self.squares[1] == NONE
            && self.squares[2] == NONE && self.squares[3] == NONE {
            result.push(Move::castle(4, 2));
        }
        proof {
            assert(result@ =~= spec_king_moves(self@, pos as int));
        }
        result
    }

    fn gen_promotions(&self, from: usize, to: usize) -> (r: Vec<Move>)
        ensures
            r@ == spec_promotions(from as int, to as int),
    {
        let result = vec![
            Move::promotion(from, to, QUEEN),
            Move::promotion(from, to, ROOK),
            Move::promotion(from, to, KNIGHT),
            Move::promotion(from, to, BISHOP),
        ];
        proof {
            assert(result@ =~= spec_promotions(from as int, to as int));
        }
        result
    }

    fn pawn_moves(&self, pos: usize) -> (r: Vec<Move>)
        requires
            pos < 64,
        ensures
            r@ == spec_pawn_moves(self@, pos as int),
    {
        let mut result: Vec<Move> = Vec::new();
        let active_color = self.active_color();
        let white = active_color == WHITE;
        if (white && pos < 8) || (!white && pos >= 56) {
            // A pawn on its own back rank arises from no reachable record.
            proof {
                assert(result@ =~= spec_pawn_moves(self@, pos as int));
            }
            return result;
        }
        let fwd = if white {
            pos - 8
        } else {
            pos + 8
        };
        let rank = fwd / 8;
        let promo = rank == 0 || rank == 7;
        if self.squares[fwd] == NONE {
            if promo {
                let mut promotions = self.gen_promotions(pos, fwd);
                result.append(&mut promotions);
            } else {
                result.push(Move::regular(pos, fwd));
            }
        }
        let single_done = result.len() > 0;
        let double_ok = (rank == 2 && !white) || (rank == 5 && white);
        if double_ok {
            let fwd2 = if white {
                fwd - 8
            } else {
                fwd + 8
            };
            if single_done && self.squares[fwd2] == NONE {
                result.push(Move::regular(pos, fwd2));
            }
        }
        let inactive_color = self.inactive_color();
        if pos % 8 != 0 {
            let cap = fwd - 1;
            let ep_hit = match self.en_passant {
                Some(square) => square == cap,
                None => false,
            };
            if self.squares[cap].is_color(inactive_color) || ep_hit {
                if promo {
                    let mut promotions = self.gen_promotions(pos, cap);
                    result.append(&mut promotions);
                } else {
                    result.push(Move::regular(pos, cap));
                }
            }
        }
        if pos % 8 != 7 {
            let cap = fwd + 1;
            let ep_hit = match self.en_passant {
                Some(square) => square == cap,
                None => false,
            };
            if self.squares[cap].is_color(inactive_color) || ep_hit {
                if promo {
                    let mut promotions = self.gen_promotions(pos, cap);
                    result.append(&mut promotions);
                } else {
                    result.push(Move::regular(pos, cap));
                }
            }
        }
        proof {
            assert(result@ =~= spec_pawn_moves(self@, pos as int));
        }
        result
    }

    fn gen_piece_moves(&self, piece: u8, pos: usize) -> (r: Vec<Move>)
        requires
            pos < 64,
        ensures
            r@ == spec_piece_moves(self@, piece, pos as int),
    {
        if piece.is_pawn() {
            self.pawn_moves(pos)
        } else if piece.is_king() {
            self.king_moves(pos)
        } else if piece.is_bishop() {
            self.sliding_moves(pos, 4..8)
        } else if piece.is_rook() {
            self.sliding_moves(pos, 0..4)
        } else if piece.is_queen() {
            self.sliding_moves(pos, 0..8)
        } else if piece.is_knight() {
            self.knight_moves(pos)
        } else {
            // A byte encoding no piece kind: an internal-invariant breach,
            // reported as an empty move list rather than an abort.
            Vec::new()
        }
    }

    fn gen_pseudo_legal_moves(&self) -> (r: Vec<Move>)
        ensures
            r@ == spec_pseudo_moves(self@),
    {
        let mut buffer: Vec<Move> = Vec::new();
        let active_color = self.active_color();
        for pos in 0..64usize
            invariant
                active_color == spec_active_color(self@),
                spec_pseudo_moves(self@) == buffer@ + pseudo_from(self@, pos as int),
        {
            let piece = self.squares[pos];
            if piece.is_color(active_color) {
                let mut piece_moves = self.gen_piece_moves(piece, pos);
                buffer.append(&mut piece_moves);
            }
        }
        proof {
            assert(buffer@ =~= spec_pseudo_moves(self@));
        }
        buffer
    }
}

/// The squares the king starts on, crosses and lands on in the castle
/// ending on `to`; no opponent move may land on any of them.
pub open spec fn castle_path(to: int) -> Seq<int> {
    if to == 2 {
        seq![2, 3, 4]
    } else if to == 6 {
        seq![4, 5, 6]
    } else if to == 58 {
        seq![58, 59, 60]
    } else {
        seq![60, 61, 62]
    }
}

/// The two squares from which an enemy pawn would attack the one king-path
/// square left empty after the castle ending on `to`; an opponent pawn
/// there is not caught by the landing-square test, since a pawn attacks
/// an empty square without having a move onto it.
pub open spec fn castle_pawn_squares(to: int) -> Seq<int> {
    if to == 2 || to == 6 {
        seq![11, 13]
    } else {
        seq![51, 53]
    }
}

/// Whether square `i` holds a pawn of the side not to move.
pub open spec fn enemy_pawn_at(b: BoardModel, i: int) -> bool {
    b.squares[i] & 7 == PAWN && b.squares[i] & spec_inactive_color(b) > 0
}

/// Whether the pseudo-legal move `mv` is legal in `b`: applying it and
/// enumerating the opponent's pseudo-legal replies, none lands on the
/// mover's king square; for a castle, none lands on a square of the king's
/// path and no enemy pawn attacks the path from its two watch squares.
pub open spec fn spec_is_legal(b: BoardModel, mv: Move) -> bool {
    let nb = spec_apply_move(b, mv);
    let opp = spec_pseudo_moves(nb);
    if mv.castle {
        (forall|i: int|
            0 <= i < opp.len() ==> !castle_path(mv.to as int).contains(
                (#[trigger] opp[i]).to as int,
            )) && !enemy_pawn_at(b, castle_pawn_squares(mv.to as int)[0]) && !enemy_pawn_at(
            b,
            castle_pawn_squares(mv.to as int)[1],
        )
    } else {
        forall|i: int| 0 <= i < opp.len() ==> (#[trigger] opp[i]).to >= 64 || nb.squares[
            opp[i].to as int
        ] & 7 != KING
    }
}

/// The square emptied by an en-passant capture onto `to`.
pub open spec fn ep_removal_square(to: int) -> int {
    if to < 32 {
        to + 8
    } else {
        to - 8
    }
}

/// Whether `mv` counts as a capture for the quiescence mode: its
/// destination holds an enemy piece, or it is a pawn move onto the
/// en-passant target that removes the bypassed enemy pawn.
pub open spec fn spec_is_quiescence_capture(b: BoardModel, mv: Move) -> bool {
    !mv.castle && (inactive_at(b, mv.to as int) || (b.squares[mv.from as int] & 7 == PAWN
        && b.en_passant == Some(mv.to) && inactive_at(b, ep_removal_square(mv.to as int))
        && !active_at(b, ep_removal_square(mv.to as int))))
}

/// The legal moves among the pseudo-legal moves with index at least `i`,
/// restricted to quiescence captures when `only_captures` is set.
pub open spec fn legal_from(b: BoardModel, only_captures: bool, i: int) -> Seq<Move>
    decreases spec_pseudo_moves(b).len() - i,
{
    let pseudo = spec_pseudo_moves(b);
    if i < 0 || i >= pseudo.len() {
        Seq::empty()
    } else {
        let keep: Seq<Move> = if spec_is_legal(b, pseudo[i]) && (!only_captures
            || spec_is_quiescence_capture(b, pseudo[i])) {
            seq![pseudo[i]]
        } else {
            Seq::empty()
        };
        keep + legal_from(b, only_captures, i + 1)
    }
}

/// The legal moves of the side to move, in generation order.
pub open spec fn spec_legal_moves(b: BoardModel, only_captures: bool) -> Seq<Move> {
    legal_from(b, only_captures, 0)
}

/// What holds of every pseudo-legal move: source and destination are
/// distinct board squares; a castle lands on a square required empty and
/// promotes to nothing; any other move starts on a piece of the side to
/// move.
pub open spec fn pseudo_mv_ok(b: BoardModel, mv: Move) -> bool {
    mv.from < 64 && mv.to < 64 && mv.from != mv.to && (if mv.castle {
        b.squares[mv.to as int] == NONE && mv.promote_to is None
    } else {
        active_at(b, mv.from as int)
    })
}

pub open spec fn all_pseudo_ok(b: BoardModel, s: Seq<Move>) -> bool {
    forall|i: int| 0 <= i < s.len() ==> pseudo_mv_ok(b, #[trigger] s[i])
}

proof fn lemma_knight_moves_shape(b: BoardModel, pos: int, k: int)
    requires
        0 <= pos < 64,
    ensures
        all_mv_shape(knight_moves_from(b, pos, k), pos),
    decreases 8 - k,
{
    if 0 <= k < 8 {
        lemma_knight_moves_shape(b, pos, k + 1);
        let r2 = pos / 8 + knight_rank_step(k);
        let f2 = pos % 8 + knight_file_step(k);
        if 0 <= r2 < 8 && 0 <= f2 < 8 {
            assert(8 * r2 + f2 != pos) by (nonlinear_arith)
                requires
                    0 <= pos < 64,
                    r2 == pos / 8 + knight_rank_step(k),
                    f2 == pos % 8 + knight_file_step(k),
                    0 <= k < 8,
            ;
        }
    }
}

proof fn lemma_slide_dirs_shape(b: BoardModel, pos: int, d: int, d_hi: int)
    requires
        0 <= pos < 64,
        d_hi <= 8,
    ensures
        all_mv_shape(slide_dirs(b, pos, d, d_hi), pos),
    decreases d_hi - d,
{
    if 0 <= d < d_hi {
        lemma_slide_in_dir_range(b, pos, d, 1);
        lemma_slide_dirs_shape(b, pos, d + 1, d_hi);
    }
}

proof fn lemma_king_steps_shape(b: BoardModel, pos: int, d: int)
    requires
        0 <= pos < 64,
    ensures
        all_mv_shape(king_steps_from(b, pos, d), pos),
    decreases 8 - d,
{
    if 0 <= d < 8 {
        lemma_king_steps_shape(b, pos, d + 1);
        if edge_distance(pos, d) > 0 {
            lemma_dir_step(pos, d);
        }
    }
}

proof fn lemma_pawn_moves_shape(b: BoardModel, pos: int)
    requires
        0 <= pos < 64,
    ensures
        all_mv_shape(spec_pawn_moves(b, pos), pos),
{
}

/// Every pseudo-legal move is a well-formed board move: this is what the
/// legality filter, the move application and the search rely on.
proof fn lemma_piece_moves_ok(b: BoardModel, pos: int)
    requires
        0 <= pos < 64,
        active_at(b, pos),
    ensures
        all_pseudo_ok(b, spec_piece_moves(b, b.squares[pos], pos)),
{
    let piece = b.squares[pos];
    if piece & 7 == PAWN {
        lemma_pawn_moves_shape(b, pos);
    } else if piece & 7 == KING {
        lemma_king_steps_shape(b, pos, 0);
        let steps = king_steps_from(b, pos, 0);
        let all = spec_king_moves(b, pos);
        assert forall|i: int| 0 <= i < all.len() implies pseudo_mv_ok(b, #[trigger] all[i]) by {
            if i < steps.len() {
                assert(mv_shape(steps[i], pos));
            } else {
                assert(castle_moves(b)[i - steps.len()] == all[i]);
            }
        }
    } else if piece & 7 == BISHOP {
        lemma_slide_dirs_shape(b, pos, 4, 8);
    } else if piece & 7 == ROOK {
        lemma_slide_dirs_shape(b, pos, 0, 4);
    } else if piece & 7 == QUEEN {
        lemma_slide_dirs_shape(b, pos, 0, 8);
    } else if piece & 7 == KNIGHT {
        lemma_knight_moves_shape(b, pos, 0);
    }
}

proof fn lemma_pseudo_from_ok(b: BoardModel, pos: int)
    ensures
        all_pseudo_ok(b, pseudo_from(b, pos)),
    decreases 64 - pos,
{
    if 0 <= pos < 64 {
        lemma_pseudo_from_ok(b, pos + 1);
        if active_at(b, pos) {
            lemma_piece_moves_ok(b, pos);
        }
    }
}

/// Every pseudo-legal move of `b` satisfies `pseudo_mv_ok`.
pub proof fn lemma_pseudo_moves_ok(b: BoardModel)
    ensures
        all_pseudo_ok(b, spec_pseudo_moves(b)),
{
    lemma_pseudo_from_ok(b, 0);
}

/// The king-path squares of the castle ending on `to`.
fn castle_path_at(to: usize) -> (r: (usize, usize, usize))
    ensures
        castle_path(to as int) == seq![r.0 as int, r.1 as int, r.2 as int],
{
    if to == 2 {
        (2, 3, 4)
    } else if to == 6 {
        (4, 5, 6)
    } else if to == 58 {
        (58, 59, 60)
    } else {
        proof {
            assert(castle_path(to as int) =~= seq![60int, 61, 62]);
        }
        (60, 61, 62)
    }
}

/// The pawn watch squares of the castle ending on `to`.
fn castle_pawns_at(to: usize) -> (r: (usize, usize))
    ensures
        r.0 as int == castle_pawn_squares(to as int)[0],
        r.1 as int == castle_pawn_squares(to as int)[1],
        r.0 < 64,
        r.1 < 64,
{
    if to == 2 || to == 6 {
        (11, 13)
    } else {
        (51, 53)
    }
}

impl Board {
    /// The legal moves of this position, restricted to capturing moves
    /// when `only_captures` is set: each pseudo-legal candidate is applied,
    /// and kept only when no pseudo-legal reply of the opponent lands on
    /// the mover's king square (for a castle: on the king's path, with the
    /// two pawn watch squares additionally free of enemy pawns).
    pub fn gen_moves(&self, only_captures: bool) -> (r: Vec<Move>)
        ensures
            r@ == spec_legal_moves(self@, only_captures),
            forall|i: int|
                0 <= i < r@.len() ==> pseudo_mv_ok(self@, #[trigger] r@[i]) && spec_is_legal(
                    self@,
                    r@[i],
                ),
            only_captures ==> forall|i: int|
                0 <= i < r@.len() ==> spec_is_quiescence_capture(self@, #[trigger] r@[i]),
    {
        let pseudo = self.gen_pseudo_legal_moves();
        proof {
            lemma_pseudo_moves_ok(self@);
        }
        let active_color = self.active_color();
        let inactive_color = self.inactive_color();
        let mut result: Vec<Move> = Vec::new();
        let pseudo_len = pseudo.len();
        for idx in 0..pseudo_len
            invariant
                pseudo_len == pseudo@.len(),
                pseudo@ == spec_pseudo_moves(self@),
                active_color == spec_active_color(self@),
                inactive_color == spec_inactive_color(self@),
                all_pseudo_ok(self@, pseudo@),
                spec_legal_moves(self@, only_captures) == result@ + legal_from(
                    self@,
                    only_captures,
                    idx as int,
                ),
                forall|i: int|
                    0 <= i < result@.len() ==> pseudo_mv_ok(self@, #[trigger] result@[i])
                        && spec_is_legal(self@, result@[i]),
                only_captures ==> forall|i: int|
                    0 <= i < result@.len() ==> spec_is_quiescence_capture(
                        self@,
                        #[trigger] result@[i],
                    ),
        {
            let mv = pseudo[idx];
            assert(pseudo_mv_ok(self@, mv));
            let next_pos = self.make_move(&mv);
            let opp = next_pos.gen_pseudo_legal_moves();
            proof {
                lemma_pseudo_moves_ok(next_pos@);
            }
            let opp_len = opp.len();
            let allowed: bool;
            if mv.castle {
                let (path_0, path_1, path_2) = castle_path_at(mv.to);
                let mut no_attack = true;
                for j in 0..opp_len
                    invariant
                        opp_len == opp@.len(),
                        opp@ == spec_pseudo_moves(next_pos@),
                        no_attack == forall|k: int|
                            0 <= k < j ==> !castle_path(mv.to as int).contains(
                                (#[trigger] opp@[k]).to as int,
                            ),
                        castle_path(mv.to as int) == seq![
                            path_0 as int,
                            path_1 as int,
                            path_2 as int,
                        ],
                {
                    let t = opp[j].to;
                    if t == path_0 || t == path_1 || t == path_2 {
                        proof {
                            let path = castle_path(mv.to as int);
                            assert(path[0] == path_0 as int && path[1] == path_1 as int && path[2]
                                == path_2 as int);
                            assert(path.contains(opp@[j as int].to as int));
                        }
                        no_attack = false;
                    } else {
                        proof {
                            let path = castle_path(mv.to as int);
                            assert(forall|m: int| 0 <= m < path.len() ==> path[m] != t as int);
                        }
                    }
                }
                let (watch_0, watch_1) = castle_pawns_at(mv.to);
                let no_pawns = !(self.squares[watch_0].is(PAWN, inactive_color)
                    || self.squares[watch_1].is(PAWN, inactive_color));
                allowed = no_attack && no_pawns;
            } else {
                proof {
                    assert(all_pseudo_ok(next_pos@, opp@));
                }
                let mut safe = true;
                for j in 0..opp_len
                    invariant
                        opp_len == opp@.len(),
                        opp@ == spec_pseudo_moves(next_pos@),
                        next_pos@ == spec_apply_move(self@, mv),
                        all_pseudo_ok(next_pos@, opp@),
                        safe == forall|k: int|
                            0 <= k < j ==> ((#[trigger] opp@[k]).to >= 64 || next_pos@.squares[
                                opp@[k].to as int
                            ] & 7 != KING),
                {
                    assert(pseudo_mv_ok(next_pos@, opp@[j as int]));
                    if next_pos.squares[opp[j].to].is_king() {
                        safe = false;
                    }
                }
                allowed = safe;
            }
            let keep: bool;
            if allowed && only_captures {
                let dest_capture = self.squares[mv.to].is_color(inactive_color);
                let ep_capture: bool;
                if !mv.castle && self.squares[mv.from].is_pawn() {
                    let ep_hit = match self.en_passant {
                        Some(square) => square == mv.to,
                        None => false,
                    };
                    if ep_hit {
                        let removal = if mv.to < 32 {
                            mv.to + 8
                        } else {
                            mv.to - 8
                        };
                        ep_capture = self.squares[removal].is_color(inactive_color)
                            && !self.squares[removal].is_color(active_color);
                    } else {
                        ep_capture = false;
                    }
                } else {
                    ep_capture = false;
                }
                keep = !mv.castle && (dest_capture || ep_capture);
                assert(keep == spec_is_quiescence_capture(self@, mv));
            } else {
                keep = allowed;
            }
            assert(allowed == spec_is_legal(self@, mv));
            if keep {
                result.push(mv);
            }
        }
        proof {
            assert(result@ =~= spec_legal_moves(self@, only_captures));
        }
        result
    }
}

/// The number of occupied squares with index at least `i`.
pub open spec fn count_from(sq: Seq<u8>, i: int) -> int
    decreases 64 - i,
{
    if i < 0 || i >= 64 {
        0
    } else {
        (if sq[i] != 0 {
            1int
        } else {
            0
        }) + count_from(sq, i + 1)
    }
}

/// The number of occupied squares of a board.
pub open spec fn count_pieces(sq: Seq<u8>) -> int {
    count_from(sq, 0)
}

pub proof fn lemma_count_nonneg(sq: Seq<u8>, i: int)
    ensures
        count_from(sq, i) >= 0,
    decreases 64 - i,
{
    if 0 <= i < 64 {
        lemma_count_nonneg(sq, i + 1);
    }
}

pub proof fn lemma_count_le(sq: Seq<u8>, i: int)
    requires
        0 <= i <= 64,
    ensures
        count_from(sq, i) <= 64 - i,
    decreases 64 - i,
{
    if i < 64 {
        lemma_count_le(sq, i + 1);
    }
}

/// Overwriting one square changes the count by the occupancy difference
/// of that square.
proof fn lemma_count_update(sq: Seq<u8>, j: int, v: u8, i: int)
    requires
        sq.len() == 64,
        0 <= j < 64,
        0 <= i <= 64,
    ensures
        count_from(sq.update(j, v), i) == count_from(sq, i) + if i <= j {
            (if v != 0 {
                1int
            } else {
                0
            }) - (if sq[j] != 0 {
                1int
            } else {
                0
            })
        } else {
            0
        },
    decreases 64 - i,
{
    if i < 64 {
        lemma_count_update(sq, j, v, i + 1);
    }
}

/// Applying a pseudo-legal move never adds a piece to the board, and a
/// quiescence capture strictly removes one: this bounds the depth of the
/// capture-only search extension.
pub proof fn lemma_apply_move_count(b: BoardModel, mv: Move)
    requires
        b.squares.len() == 64,
        pseudo_mv_ok(b, mv),
    ensures
        spec_apply_move(b, mv).squares.len() == 64,
        count_pieces(spec_apply_move(b, mv).squares) <= count_pieces(b.squares),
        spec_is_quiescence_capture(b, mv) ==> count_pieces(spec_apply_move(b, mv).squares)
            < count_pieces(b.squares),
{
    let from = mv.from as int;
    let to = mv.to as int;
    let sq0 = b.squares;
    let moved = sq0[from];
    let pawn_mv = moved & 7 == PAWN;
    let rm_applies = pawn_mv && b.en_passant == Some(mv.to);
    let rm = ep_removal_square(to);
    let sq1 = if rm_applies {
        sq0.update(rm, NONE)
    } else {
        sq0
    };
    let ac = spec_active_color(b);
    let ic = spec_inactive_color(b);
    assert(0u8 & ac == 0 && 0u8 & ic == 0 && 0u8 & 7 == 0) by (bit_vector);
    if rm_applies {
        assert(moved != 0);
        lemma_count_update(sq0, rm, NONE, 0);
    }
    let placed = match mv.promote_to {
        Some(piece) => piece | ac,
        None => sq1[from],
    };
    if mv.promote_to is Some {
        let piece = mv.promote_to->0;
        assert(piece | ac != 0) by (bit_vector)
            requires
                ac == 8 || ac == 16,
        ;
    }
    let sq2a = sq1.update(to, placed);
    let sq2 = sq2a.update(from, NONE);
    lemma_count_update(sq1, to, placed, 0);
    lemma_count_update(sq2a, from, NONE, 0);
    if !mv.castle {
        assert(active_at(b, from));
        assert(moved != 0);
        assert(spec_apply_move(b, mv).squares == sq2);
        if spec_is_quiescence_capture(b, mv) {
            if inactive_at(b, to) {
                assert(sq0[to] != 0);
            } else {
                assert(sq0[rm] & ic > 0 && !(sq0[rm] & ac > 0));
                assert(sq0[rm] != 0);
                assert(sq0[from] & ac > 0);
                assert(rm != from);
            }
        }
    } else {
        let sq3 = spec_apply_move(b, mv).squares;
        if to == 62 {
            lemma_count_update(sq2, 61, sq2[63], 0);
            lemma_count_update(sq2.update(61, sq2[63]), 63, NONE, 0);
        } else if to == 58 {
            lemma_count_update(sq2, 59, sq2[56], 0);
            lemma_count_update(sq2.update(59, sq2[56]), 56, NONE, 0);
        } else if to == 6 {
            lemma_count_update(sq2, 5, sq2[7], 0);
            lemma_count_update(sq2.update(5, sq2[7]), 7, NONE, 0);
        } else if to == 2 {
            lemma_count_update(sq2, 3, sq2[0], 0);
            lemma_count_update(sq2.update(3, sq2[0]), 0, NONE, 0);
        }
    }
}

} // verus!
