//! The move orderer: a stable partition that puts capturing moves before
//! non-capturing ones without changing the contents of the list.

use vstd::prelude::*;
use crate::model::{Board, BoardModel, Move};
use crate::engine::evaluation::spec_is_capture;

verus! {

/// The moves with index at least `i` whose capture status equals `want`,
/// in their original order.
pub open spec fn captures_matching(b: BoardModel, s: Seq<Move>, i: int, want: bool) -> Seq<Move>
    decreases s.len() - i,
{
    if i < 0 || i >= s.len() {
        Seq::empty()
    } else {
        let keep: Seq<Move> = if spec_is_capture(b, s[i]) == want {
            seq![s[i]]
        } else {
            Seq::empty()
        };
        keep + captures_matching(b, s, i + 1, want)
    }
}

/// The ordered move list: the capturing moves first, then the rest, each
/// group keeping its relative order.
pub open spec fn spec_order(b: BoardModel, s: Seq<Move>) -> Seq<Move> {
    captures_matching(b, s, 0, true) + captures_matching(b, s, 0, false)
}

/// The two groups partition the list: their lengths sum to its length.
pub proof fn lemma_order_len(b: BoardModel, s: Seq<Move>, i: int)
    requires
        0 <= i <= s.len(),
    ensures
        captures_matching(b, s, i, true).len() + captures_matching(b, s, i, false).len() == s.len()
            - i,
    decreases s.len() - i,
{
    if i < s.len() {
        lemma_order_len(b, s, i + 1);
    }
}

/// A property of every list element holds of every element of each group.
pub proof fn lemma_order_membership(b: BoardModel, s: Seq<Move>, i: int, want: bool)
    requires
        0 <= i <= s.len(),
    ensures
        forall|k: int|
            0 <= k < captures_matching(b, s, i, want).len() ==> s.contains(
                #[trigger] captures_matching(b, s, i, want)[k],
            ),
    decreases s.len() - i,
{
    if i < s.len() {
        lemma_order_membership(b, s, i + 1, want);
        let cur = captures_matching(b, s, i, want);
        let rest = captures_matching(b, s, i + 1, want);
        assert forall|k: int| 0 <= k < cur.len() implies s.contains(cur[k]) by {
            if spec_is_capture(b, s[i]) == want && k == 0 {
                assert(cur[0] == s[i]);
                assert(s.contains(s[i]));
            } else {
                let off = cur.len() - rest.len();
                assert(cur[k] == rest[k - off]);
            }
        }
    }
}

impl Board {
    /// Reorders `moves` so captures come first; the contents, and the
    /// relative order inside each group, are unchanged.
    pub fn order(&self, moves: &Vec<Move>) -> (r: Vec<Move>)
        requires
            forall|i: int| 0 <= i < moves@.len() ==> (#[trigger] moves@[i]).to < 64,
        ensures
            r@ == spec_order(self@, moves@),
            r@.len() == moves@.len(),
    {
        let mut result: Vec<Move> = Vec::new();
        let mut rest: Vec<Move> = Vec::new();
        let moves_len = moves.len();
        for i in 0..moves_len
            invariant
                moves_len == moves@.len(),
                forall|k: int| 0 <= k < moves@.len() ==> (#[trigger] moves@[k]).to < 64,
                captures_matching(self@, moves@, 0, true) == result@ + captures_matching(
                    self@,
                    moves@,
                    i as int,
                    true,
                ),
        {
            let mv = moves[i];
            if mv.is_capture(self) {
                result.push(mv);
            }
        }
        for i in 0..moves_len
            invariant
                moves_len == moves@.len(),
                forall|k: int| 0 <= k < moves@.len() ==> (#[trigger] moves@[k]).to < 64,
                captures_matching(self@, moves@, 0, false) == rest@ + captures_matching(
                    self@,
                    moves@,
                    i as int,
                    false,
                ),
        {
            let mv = moves[i];
            if !mv.is_capture(self) {
                rest.push(mv);
            }
        }
        result.append(&mut rest);
        proof {
            lemma_order_len(self@, moves@, 0);
            assert(result@ =~= spec_order(self@, moves@));
        }
        result
    }
}

} // verus!
